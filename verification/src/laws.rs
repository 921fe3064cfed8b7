//! Properties of the parser as a whole, proved over the specification that
//! `parse` and `advance_widths` are shown to compute.
use vstd::prelude::*;

use crate::error::Error;
use crate::TableRecord;
use crate::format::{
    advance_widths_spec, be_i16, be_u16, hmtx_spec, be_u32, checksum_ok, in_bounds, checksum_spec, directory_spec, find_spec,
    locate_three, padded_byte, parse_spec, table_slice, word_at, word_count, word_sum, HEAD_MAGIC,
    HEAD_TAG, HHEA_TAG, HMTX_TAG, MAXP_TAG, OS2_TAG, SFNT_APPLE_TRUE, SFNT_OPENTYPE_CFF,
    SFNT_TRUETYPE,
};

verus! {

/// Lenient parsing only turns checks off: whatever a strict parse accepts,
/// a lenient parse accepts too, with the same metrics.
pub proof fn law_strict_success_carries_to_lenient(d: Seq<u8>)
    requires
        parse_spec(d, false) is Ok,
    ensures
        parse_spec(d, true) == parse_spec(d, false),
{
}

/// Lenient parsing only turns checks off: whatever advance widths a strict
/// parse returns, a lenient parse returns too.
pub proof fn law_strict_widths_carry_to_lenient(d: Seq<u8>)
    requires
        advance_widths_spec(d, false) is Ok,
    ensures
        advance_widths_spec(d, true) == advance_widths_spec(d, false),
{
}

/// A lenient parse never fails one of the checks that only strict mode
/// makes, and rejects an sfnt version only when it is none of the three
/// tags it knows.
pub proof fn law_lenient_skips_strict_checks(d: Seq<u8>)
    ensures
        match parse_spec(d, true) {
            Err(Error::ChecksumMismatch { .. }) => false,
            Err(Error::BadMagicNumber(_)) => false,
            Err(Error::UnsupportedTableVersion { .. }) => false,
            Err(Error::InvalidHMetricsCount { .. }) => false,
            Err(Error::BadSfntVersion(v)) => v != SFNT_TRUETYPE && v != SFNT_OPENTYPE_CFF && v
                != SFNT_APPLE_TRUE,
            _ => true,
        },
        match advance_widths_spec(d, true) {
            Err(Error::ChecksumMismatch { .. }) => false,
            Err(Error::BadMagicNumber(_)) => false,
            Err(Error::UnsupportedTableVersion { .. }) => false,
            Err(Error::InvalidHMetricsCount { .. }) => false,
            Err(Error::BadSfntVersion(v)) => v != SFNT_TRUETYPE && v != SFNT_OPENTYPE_CFF && v
                != SFNT_APPLE_TRUE,
            _ => true,
        },
{
}

/// A strict parse succeeds only for a font that passes every check the
/// format specifies: a TrueType or `OTTO` version tag, matching `head`,
/// `hhea` and `OS/2` checksums, `head` and `hhea` version 1.0, the `head`
/// magic number, and an `OS/2` version of at most 5.
pub proof fn law_strict_success_means_checks_passed(d: Seq<u8>)
    requires
        parse_spec(d, false) is Ok,
    ensures
        be_u32(d, 0) == SFNT_TRUETYPE || be_u32(d, 0) == SFNT_OPENTYPE_CFF,
        ({
            let recs = directory_spec(d, false)->Ok_0;
            let head = find_spec(recs, HEAD_TAG)->Some_0;
            let hhea = find_spec(recs, HHEA_TAG)->Some_0;
            let os2 = find_spec(recs, OS2_TAG)->Some_0;
            let hb = table_slice(d, head);
            let hh = table_slice(d, hhea);
            let ob = table_slice(d, os2);
            &&& checksum_ok(head, hb)
            &&& checksum_ok(hhea, hh)
            &&& checksum_ok(os2, ob)
            &&& be_u16(hb, 0) == 1 && be_u16(hb, 2) == 0
            &&& be_u32(hb, 12) == HEAD_MAGIC
            &&& be_u16(hh, 0) == 1 && be_u16(hh, 2) == 0
            &&& be_u16(ob, 0) <= 5
        }),
{
}

/// A strict parse of the advance widths gives exactly one width per glyph
/// (`maxp.numGlyphs`, which is at least `hhea.numberOfHMetrics`): the
/// explicit widths of `hmtx` first, then the last of them repeated.
pub proof fn law_strict_widths_one_per_glyph(d: Seq<u8>)
    requires
        advance_widths_spec(d, false) is Ok,
    ensures
        ({
            let tables = locate_three(
                d,
                false,
                ((HHEA_TAG, "hhea"), (MAXP_TAG, "maxp"), (HMTX_TAG, "hmtx")),
            )->Ok_0;
            let nhm = be_u16(tables.0, 34);
            let ng = be_u16(tables.1, 4);
            let w = advance_widths_spec(d, false)->Ok_0;
            &&& nhm <= ng
            &&& w.len() == ng
            &&& forall|i: int| 0 <= i < nhm ==> w[i] == be_u16(tables.2, 4 * i)
            &&& forall|i: int| nhm <= i < ng && nhm > 0 ==> #[trigger] w[i] == w[nhm - 1]
        }),
{
}

/// Appending zero bytes to a table leaves it with the same checksum:
/// the last word of a table is zero-padded.
pub proof fn law_checksum_zero_padding(s: Seq<u8>, k: nat)
    ensures
        checksum_spec(s + Seq::new(k, |i: int| 0u8)) == checksum_spec(s),
{
    let t = s + Seq::new(k, |i: int| 0u8);
    assert forall|i: int| i >= 0 implies #[trigger] padded_byte(t, i) == padded_byte(s, i) by {
        if i < s.len() {
            assert(t[i] == s[i]);
        } else if i < t.len() {
            assert(t[i] == 0u8);
        }
    }
    lemma_word_sum_same(s, t, word_count(t.len()));
    lemma_word_sum_stable(s, word_count(t.len()));
}

/// Two byte strings that agree on every padded byte have the same word sums.
proof fn lemma_word_sum_same(s: Seq<u8>, t: Seq<u8>, n: nat)
    requires
        forall|i: int| i >= 0 ==> #[trigger] padded_byte(t, i) == padded_byte(s, i),
    ensures
        word_sum(t, n) == word_sum(s, n),
    decreases n,
{
    if n > 0 {
        lemma_word_sum_same(s, t, (n - 1) as nat);
        let k = n - 1;
        assert(padded_byte(t, 4 * k) == padded_byte(s, 4 * k));
        assert(padded_byte(t, 4 * k + 1) == padded_byte(s, 4 * k + 1));
        assert(padded_byte(t, 4 * k + 2) == padded_byte(s, 4 * k + 2));
        assert(padded_byte(t, 4 * k + 3) == padded_byte(s, 4 * k + 3));
    }
}

/// Words past the end of `s` are zero, so summing more of them changes
/// nothing.
proof fn lemma_word_sum_stable(s: Seq<u8>, n: nat)
    requires
        n >= word_count(s.len()),
    ensures
        word_sum(s, n) == word_sum(s, word_count(s.len())),
    decreases n,
{
    if n > word_count(s.len()) {
        lemma_word_sum_stable(s, (n - 1) as nat);
        assert(word_at(s, n - 1) == 0);
    }
}

/// Table lookup finds exactly the requested tag: a record found carries the
/// whole 4-byte tag asked for and no earlier record does, and nothing is
/// found only when no record has that tag.
pub proof fn law_find_table_matches_whole_tag(recs: Seq<TableRecord>, tag: [u8; 4])
    ensures
        match find_spec(recs, tag) {
            Some(r) => {
                &&& r.tag == tag
                &&& exists|i: int|
                    0 <= i < recs.len() && recs[i] == r && forall|j: int|
                        0 <= j < i ==> #[trigger] recs[j].tag != tag
            },
            None => forall|i: int| 0 <= i < recs.len() ==> #[trigger] recs[i].tag != tag,
        },
    decreases recs.len(),
{
    if recs.len() > 0 {
        let init = recs.drop_last();
        law_find_table_matches_whole_tag(init, tag);
        match find_spec(init, tag) {
            Some(r) => {
                let i = choose|i: int|
                    0 <= i < init.len() && init[i] == r && forall|j: int|
                        0 <= j < i ==> #[trigger] init[j].tag != tag;
                assert(recs[i] == r);
                assert forall|j: int| 0 <= j < i implies #[trigger] recs[j].tag != tag by {
                    assert(recs[j] == init[j]);
                }
            },
            None => {
                if recs.last().tag == tag {
                    let i = recs.len() - 1;
                    assert forall|j: int| 0 <= j < i implies #[trigger] recs[j].tag != tag by {
                        assert(recs[j] == init[j]);
                    }
                } else {
                    assert forall|i: int| 0 <= i < recs.len() implies #[trigger] recs[i].tag
                        != tag by {
                        if i < recs.len() - 1 {
                            assert(recs[i] == init[i]);
                        }
                    }
                }
            },
        }
    }
}

/// The big-endian value of the four bytes `w[0..4]`.
pub open spec fn word_value(w: Seq<u8>) -> int {
    w[0] as int * 0x100_0000 + w[1] as int * 0x1_0000 + w[2] as int * 0x100 + w[3] as int
}

/// The checksum of one 4-byte word is its big-endian value, and the empty
/// table sums to 0.
pub proof fn law_checksum_of_one_word(w: Seq<u8>)
    requires
        w.len() == 4,
    ensures
        checksum_spec(w) == word_value(w),
        checksum_spec(Seq::<u8>::empty()) == 0,
{
    assert(word_count(4) == 1);
    assert(word_sum(w, 1) == word_sum(w, 0) + word_at(w, 0));
    vstd::arithmetic::div_mod::lemma_small_mod(word_value(w) as nat, 0x1_0000_0000);
    assert(word_count(0) == 0);
}

/// Every word of a table counts: the checksum of `a` followed by `b`, where
/// `a` is a whole number of words, is the wrapping sum of their checksums.
pub proof fn law_checksum_additive(a: Seq<u8>, b: Seq<u8>)
    requires
        a.len() % 4 == 0,
    ensures
        checksum_spec(a + b) == (checksum_spec(a) as int + checksum_spec(b) as int) % 0x1_0000_0000,
{
    let t = a + b;
    let na = word_count(a.len());
    let nb = word_count(b.len());
    assert(na * 4 == a.len());
    assert(word_count(t.len()) == na + nb);
    lemma_word_sum_concat(a, b, nb);
    let m: int = 0x1_0000_0000;
    vstd::arithmetic::div_mod::lemma_add_mod_noop(word_sum(a, na), word_sum(b, nb), m);
}

/// Word sums over `a + b` split into those of `a` and `b`.
proof fn lemma_word_sum_concat(a: Seq<u8>, b: Seq<u8>, n: nat)
    requires
        a.len() % 4 == 0,
    ensures
        word_sum(a + b, word_count(a.len()) + n) == word_sum(a, word_count(a.len())) + word_sum(
            b,
            n,
        ),
    decreases n,
{
    let t = a + b;
    let na = word_count(a.len());
    if n == 0 {
        lemma_word_sum_prefix(a, b, na);
    } else {
        lemma_word_sum_concat(a, b, (n - 1) as nat);
        let k = n - 1;
        assert(na * 4 == a.len());
        assert forall|i: int| 0 <= i < 4 implies #[trigger] padded_byte(t, 4 * (na + k) + i)
            == padded_byte(b, 4 * k + i) by {
            if 4 * k + i < b.len() {
                assert(t[4 * (na + k) + i] == b[4 * k + i]);
            }
        }
        assert(padded_byte(t, 4 * (na + k)) == padded_byte(b, 4 * k));
        assert(padded_byte(t, 4 * (na + k) + 1) == padded_byte(b, 4 * k + 1));
        assert(padded_byte(t, 4 * (na + k) + 2) == padded_byte(b, 4 * k + 2));
        assert(padded_byte(t, 4 * (na + k) + 3) == padded_byte(b, 4 * k + 3));
        assert(word_at(t, na + k) == word_at(b, k));
    }
}

/// The first words of `a + b` are those of `a`.
proof fn lemma_word_sum_prefix(a: Seq<u8>, b: Seq<u8>, n: nat)
    requires
        4 * n <= a.len(),
    ensures
        word_sum(a + b, n) == word_sum(a, n),
    decreases n,
{
    if n > 0 {
        lemma_word_sum_prefix(a, b, (n - 1) as nat);
        let t = a + b;
        let k = n - 1;
        assert(t[4 * k] == a[4 * k]);
        assert(t[4 * k + 1] == a[4 * k + 1]);
        assert(t[4 * k + 2] == a[4 * k + 2]);
        assert(t[4 * k + 3] == a[4 * k + 3]);
        assert(word_at(t, k) == word_at(a, k));
    }
}

/// The unsigned big-endian 16-bit value of `s[i..i + 2]`.
pub open spec fn u16_at(s: Seq<u8>, i: int) -> int {
    s[i] as int * 0x100 + s[i + 1] as int
}

/// The two's-complement big-endian 16-bit value of `s[i..i + 2]`.
pub open spec fn i16_at(s: Seq<u8>, i: int) -> int {
    if u16_at(s, i) < 0x8000 {
        u16_at(s, i)
    } else {
        u16_at(s, i) - 0x1_0000
    }
}

/// The unsigned big-endian 32-bit value of `s[i..i + 4]`.
pub open spec fn u32_at(s: Seq<u8>, i: int) -> int {
    u16_at(s, i) * 0x1_0000 + u16_at(s, i + 2)
}

proof fn lemma_be_values(s: Seq<u8>, i: int)
    requires
        0 <= i,
        i + 2 <= s.len(),
    ensures
        be_u16(s, i) as int == u16_at(s, i),
        be_i16(s, i) as int == i16_at(s, i),
        i + 4 <= s.len() ==> be_u32(s, i) as int == u32_at(s, i),
{
    let u = be_u16(s, i);
    assert(u < 0x8000 ==> (u as i16) as int == u as int) by (bit_vector);
    assert(u >= 0x8000 ==> (u as i16) as int == u as int - 0x1_0000) by (bit_vector);
    if i + 4 <= s.len() {
        assert(u32_at(s, i) == s[i] as int * 0x100_0000 + s[i + 1] as int * 0x1_0000 + s[i + 2] as int
            * 0x100 + s[i + 3] as int);
    }
}

/// The directory records are the 16-byte entries after the 12-byte header,
/// as many as the header's numTables, each field the big-endian value at its
/// place in the entry.
pub proof fn law_directory_is_the_bytes(d: Seq<u8>, lenient: bool)
    requires
        directory_spec(d, lenient) is Ok,
    ensures
        ({
            let recs = directory_spec(d, lenient)->Ok_0;
            &&& recs.len() == u16_at(d, 4)
            &&& d.len() >= 12 + 16 * recs.len()
            &&& forall|i: int|
                0 <= i < recs.len() ==> {
                    let p = 12 + 16 * i;
                    &&& (#[trigger] recs[i]).tag[0] == d[p] && recs[i].tag[1] == d[p + 1]
                        && recs[i].tag[2] == d[p + 2] && recs[i].tag[3] == d[p + 3]
                    &&& recs[i].checksum == u32_at(d, p + 4)
                    &&& recs[i].offset == u32_at(d, p + 8)
                    &&& recs[i].length == u32_at(d, p + 12)
                }
        }),
{
    let recs = directory_spec(d, lenient)->Ok_0;
    lemma_be_values(d, 4);
    assert forall|i: int| 0 <= i < recs.len() implies {
        let p = 12 + 16 * i;
        &&& (#[trigger] recs[i]).tag[0] == d[p] && recs[i].tag[1] == d[p + 1] && recs[i].tag[2]
            == d[p + 2] && recs[i].tag[3] == d[p + 3]
        &&& recs[i].checksum == u32_at(d, p + 4)
        &&& recs[i].offset == u32_at(d, p + 8)
        &&& recs[i].length == u32_at(d, p + 12)
    } by {
        let p = 12 + 16 * i;
        lemma_be_values(d, p + 4);
        lemma_be_values(d, p + 8);
        lemma_be_values(d, p + 12);
    }
}

/// The bytes of the first record of `recs` with tag `tag`.
pub open spec fn located(d: Seq<u8>, recs: Seq<TableRecord>, tag: [u8; 4]) -> Seq<u8> {
    let r = find_spec(recs, tag)->Some_0;
    d.subrange(r.offset as int, r.offset + r.length)
}

/// Some record has tag `tag`, and the first such lies within `d` and
/// carries the checksum of its bytes.
pub open spec fn sound_table(d: Seq<u8>, recs: Seq<TableRecord>, tag: [u8; 4]) -> bool {
    let r = find_spec(recs, tag)->Some_0;
    &&& exists|i: int| 0 <= i < recs.len() && #[trigger] recs[i].tag == tag
    &&& r.offset + r.length <= d.len()
    &&& checksum_spec(located(d, recs, tag)) == r.checksum
}

/// The header of `d` holds a version tag strict parsing accepts
/// (`00 01 00 00` or `OTTO`) and `d` holds the whole directory it announces.
pub open spec fn strict_header(d: Seq<u8>) -> bool {
    &&& d.len() >= 12
    &&& (d[0] == 0 && d[1] == 1 && d[2] == 0 && d[3] == 0) || (d[0] == 0x4F && d[1] == 0x54 && d[2]
        == 0x54 && d[3] == 0x4F)
    &&& d.len() >= 12 + 16 * u16_at(d, 4)
}

proof fn lemma_sound_table_found(d: Seq<u8>, recs: Seq<TableRecord>, tag: [u8; 4])
    requires
        sound_table(d, recs, tag),
    ensures
        find_spec(recs, tag) is Some,
        in_bounds(find_spec(recs, tag)->Some_0, d.len()),
        table_slice(d, find_spec(recs, tag)->Some_0) == located(d, recs, tag),
        checksum_ok(find_spec(recs, tag)->Some_0, located(d, recs, tag)),
{
    law_find_table_matches_whole_tag(recs, tag);
}

proof fn lemma_strict_directory(d: Seq<u8>)
    requires
        strict_header(d),
    ensures
        directory_spec(d, false) is Ok,
{
    lemma_be_values(d, 0);
    lemma_be_values(d, 4);
}

/// A strict parse accepts every font that passes the checks: a recognized
/// header, `head`, `hhea` and `OS/2` present, in bounds and checksum-correct,
/// long enough for the fields read, `head` and `hhea` at version 1.0 with the
/// right magic number, and any `OS/2` version from 0 through 5.
pub proof fn law_strict_accepts_well_formed_font(d: Seq<u8>)
    requires
        strict_header(d),
        ({
            let recs = directory_spec(d, false)->Ok_0;
            let head = located(d, recs, HEAD_TAG);
            let hhea = located(d, recs, HHEA_TAG);
            let os2 = located(d, recs, OS2_TAG);
            &&& sound_table(d, recs, HEAD_TAG)
            &&& sound_table(d, recs, HHEA_TAG)
            &&& sound_table(d, recs, OS2_TAG)
            &&& head.len() >= 20 && hhea.len() >= 36 && os2.len() >= 78
            &&& u16_at(head, 0) == 1 && u16_at(head, 2) == 0
            &&& head[12] == 0x5F && head[13] == 0x0F && head[14] == 0x3C && head[15] == 0xF5
            &&& u16_at(hhea, 0) == 1 && u16_at(hhea, 2) == 0
            &&& u16_at(os2, 0) <= 5
        }),
    ensures
        parse_spec(d, false) is Ok,
{
    lemma_strict_directory(d);
    let recs = directory_spec(d, false)->Ok_0;
    lemma_sound_table_found(d, recs, HEAD_TAG);
    lemma_sound_table_found(d, recs, HHEA_TAG);
    lemma_sound_table_found(d, recs, OS2_TAG);
    let head = located(d, recs, HEAD_TAG);
    let hhea = located(d, recs, HHEA_TAG);
    let os2 = located(d, recs, OS2_TAG);
    lemma_be_values(head, 0);
    lemma_be_values(head, 2);
    lemma_be_values(head, 12);
    lemma_be_values(hhea, 0);
    lemma_be_values(hhea, 2);
    lemma_be_values(os2, 0);
}

/// Every metric `parse` returns is the big-endian value at its fixed offset
/// in its table (the first record with that tag), whatever the table
/// versions: `head` unitsPerEm at 18; `hhea` ascender, descender, lineGap,
/// advanceWidthMax at 4, 6, 8, 10 and numberOfHMetrics at 34; `OS/2`
/// sTypoAscender, sTypoDescender, sTypoLineGap, usWinAscent, usWinDescent at
/// 68, 70, 72, 74, 76.
pub proof fn law_metrics_are_the_bytes_at_fixed_offsets(d: Seq<u8>, lenient: bool)
    requires
        parse_spec(d, lenient) is Ok,
    ensures
        ({
            let recs = directory_spec(d, lenient)->Ok_0;
            let head = located(d, recs, HEAD_TAG);
            let hhea = located(d, recs, HHEA_TAG);
            let os2 = located(d, recs, OS2_TAG);
            let m = parse_spec(d, lenient)->Ok_0;
            &&& m.units_per_em == u16_at(head, 18)
            &&& m.ascender == i16_at(hhea, 4)
            &&& m.descender == i16_at(hhea, 6)
            &&& m.line_gap == i16_at(hhea, 8)
            &&& m.advance_width_max == u16_at(hhea, 10)
            &&& m.number_of_h_metrics == u16_at(hhea, 34)
            &&& m.typo_ascender == i16_at(os2, 68)
            &&& m.typo_descender == i16_at(os2, 70)
            &&& m.typo_line_gap == i16_at(os2, 72)
            &&& m.win_ascent == u16_at(os2, 74)
            &&& m.win_descent == u16_at(os2, 76)
        }),
{
    let recs = directory_spec(d, lenient)->Ok_0;
    let head = located(d, recs, HEAD_TAG);
    let hhea = located(d, recs, HHEA_TAG);
    let os2 = located(d, recs, OS2_TAG);
    assert(head == table_slice(d, find_spec(recs, HEAD_TAG)->Some_0));
    assert(hhea == table_slice(d, find_spec(recs, HHEA_TAG)->Some_0));
    assert(os2 == table_slice(d, find_spec(recs, OS2_TAG)->Some_0));
    lemma_be_values(head, 18);
    lemma_be_values(hhea, 4);
    lemma_be_values(hhea, 6);
    lemma_be_values(hhea, 8);
    lemma_be_values(hhea, 10);
    lemma_be_values(hhea, 34);
    lemma_be_values(os2, 68);
    lemma_be_values(os2, 70);
    lemma_be_values(os2, 72);
    lemma_be_values(os2, 74);
    lemma_be_values(os2, 76);
}

/// The width of glyph `i` in an `hmtx` table with `nhm` long metrics: the
/// advanceWidth of long metric `i`, or, past the long metrics, that of the
/// last one (0 when there is none).
pub open spec fn expected_width(hmtx: Seq<u8>, nhm: int, i: int) -> int {
    if i < nhm {
        u16_at(hmtx, 4 * i)
    } else if nhm == 0 {
        0
    } else {
        u16_at(hmtx, 4 * (nhm - 1))
    }
}

proof fn lemma_widths_values(hmtx: Seq<u8>, nhm: u16, ng: u16)
    requires
        hmtx_spec(hmtx, nhm, ng) is Ok,
    ensures
        ({
            let w = hmtx_spec(hmtx, nhm, ng)->Ok_0;
            &&& w.len() == if nhm < ng {
                ng as int
            } else {
                nhm as int
            }
            &&& hmtx.len() >= 4 * nhm + if nhm < ng {
                2 * (ng - nhm)
            } else {
                0
            }
            &&& forall|i: int| 0 <= i < w.len() ==> #[trigger] w[i] == expected_width(hmtx, nhm as int, i)
        }),
{
    let w = hmtx_spec(hmtx, nhm, ng)->Ok_0;
    assert forall|i: int| 0 <= i < w.len() implies #[trigger] w[i] == expected_width(hmtx, nhm as int, i) by {
        if i < nhm {
            lemma_be_values(hmtx, 4 * i);
        } else if nhm > 0 {
            lemma_be_values(hmtx, 4 * (nhm - 1));
        }
    }
}

/// The advance widths are the bytes of `hmtx` (the first record with that
/// tag): one per glyph of `maxp.numGlyphs` (at offset 4), or one per long
/// metric of `hhea.numberOfHMetrics` (at offset 34) when a lenient parse
/// meets more of those; each width as `expected_width` gives it.
pub proof fn law_widths_are_the_bytes(d: Seq<u8>, lenient: bool)
    requires
        advance_widths_spec(d, lenient) is Ok,
    ensures
        ({
            let recs = directory_spec(d, lenient)->Ok_0;
            let hhea = located(d, recs, HHEA_TAG);
            let maxp = located(d, recs, MAXP_TAG);
            let hmtx = located(d, recs, HMTX_TAG);
            let nhm = u16_at(hhea, 34);
            let ng = u16_at(maxp, 4);
            let w = advance_widths_spec(d, lenient)->Ok_0;
            &&& !lenient ==> nhm <= ng
            &&& w.len() == if nhm < ng {
                ng
            } else {
                nhm
            }
            &&& forall|i: int| 0 <= i < w.len() ==> #[trigger] w[i] == expected_width(hmtx, nhm, i)
        }),
{
    let recs = directory_spec(d, lenient)->Ok_0;
    let hhea = located(d, recs, HHEA_TAG);
    let maxp = located(d, recs, MAXP_TAG);
    let hmtx = located(d, recs, HMTX_TAG);
    assert(hhea == table_slice(d, find_spec(recs, HHEA_TAG)->Some_0));
    assert(maxp == table_slice(d, find_spec(recs, MAXP_TAG)->Some_0));
    assert(hmtx == table_slice(d, find_spec(recs, HMTX_TAG)->Some_0));
    lemma_be_values(hhea, 34);
    lemma_be_values(maxp, 4);
    lemma_widths_values(hmtx, be_u16(hhea, 34), be_u16(maxp, 4));
}

/// A strict parse of the advance widths succeeds on every font that passes
/// its checks, whatever `maxp`'s version: a recognized header, `hhea`,
/// `maxp` and `hmtx` present, in bounds and checksum-correct, `hhea` and
/// `maxp` long enough, numberOfHMetrics at most numGlyphs, and `hmtx` long
/// enough for its long metrics and trailing side bearings. It then gives one
/// width per glyph.
pub proof fn law_strict_widths_of_well_formed_font(d: Seq<u8>)
    requires
        strict_header(d),
        ({
            let recs = directory_spec(d, false)->Ok_0;
            let hhea = located(d, recs, HHEA_TAG);
            let maxp = located(d, recs, MAXP_TAG);
            let hmtx = located(d, recs, HMTX_TAG);
            &&& sound_table(d, recs, HHEA_TAG)
            &&& sound_table(d, recs, MAXP_TAG)
            &&& sound_table(d, recs, HMTX_TAG)
            &&& hhea.len() >= 36 && maxp.len() >= 6
            &&& u16_at(hhea, 34) <= u16_at(maxp, 4)
            &&& hmtx.len() >= 4 * u16_at(hhea, 34) + 2 * (u16_at(maxp, 4) - u16_at(hhea, 34))
        }),
    ensures
        advance_widths_spec(d, false) is Ok,
        advance_widths_spec(d, false)->Ok_0.len() == u16_at(
            located(d, directory_spec(d, false)->Ok_0, MAXP_TAG),
            4,
        ),
{
    lemma_strict_directory(d);
    let recs = directory_spec(d, false)->Ok_0;
    lemma_sound_table_found(d, recs, HHEA_TAG);
    lemma_sound_table_found(d, recs, MAXP_TAG);
    lemma_sound_table_found(d, recs, HMTX_TAG);
    let hhea = located(d, recs, HHEA_TAG);
    let maxp = located(d, recs, MAXP_TAG);
    let hmtx = located(d, recs, HMTX_TAG);
    lemma_be_values(hhea, 34);
    lemma_be_values(maxp, 4);
    law_widths_are_the_bytes(d, false);
}

/// A `TooShort` error names a read that ends past the bytes available (or
/// one whose end does not fit in `usize`).
pub proof fn law_too_short_needs_more_than_available(d: Seq<u8>, lenient: bool)
    ensures
        parse_spec(d, lenient) matches Err(Error::TooShort { needed, available }) ==> (available
            < needed || needed == usize::MAX),
        advance_widths_spec(d, lenient) matches Err(Error::TooShort { needed, available }) ==> (
        available < needed || needed == usize::MAX),
{
}

/// A checksum mismatch names one of the tables read, the checksum its
/// (first) record holds and the different checksum of its bytes.
pub proof fn law_checksum_mismatch_reports_both_sums(d: Seq<u8>)
    ensures
        parse_spec(d, false) matches Err(Error::ChecksumMismatch { tag, expected, actual }) ==> {
            let recs = directory_spec(d, false)->Ok_0;
            &&& tag == HEAD_TAG || tag == HHEA_TAG || tag == OS2_TAG
            &&& find_spec(recs, tag)->Some_0.checksum == expected
            &&& checksum_spec(located(d, recs, tag)) == actual
            &&& expected != actual
        },
{
    if directory_spec(d, false) is Ok {
        let recs = directory_spec(d, false)->Ok_0;
        law_find_table_matches_whole_tag(recs, HEAD_TAG);
        law_find_table_matches_whole_tag(recs, HHEA_TAG);
        law_find_table_matches_whole_tag(recs, OS2_TAG);
    }
}

} // verus!
