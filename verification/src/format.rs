//! The byte layout of the sfnt tables this crate reads, as mathematical
//! functions of the file's bytes. The executable parser is proved to compute
//! exactly these functions.
use vstd::prelude::*;

use crate::error::Error;
use crate::{FontMetrics, TableRecord};

verus! {

/// `head.magicNumber` as the format fixes it.
pub const HEAD_MAGIC: u32 = 0x5F0F_3CF5;

/// Highest `OS/2` table version this parser knows the layout of.
pub const OS2_MAX_KNOWN_VERSION: u16 = 5;

/// sfnt version of TrueType outlines.
pub const SFNT_TRUETYPE: u32 = 0x0001_0000;

/// `OTTO`: OpenType with CFF outlines.
pub const SFNT_OPENTYPE_CFF: u32 = 0x4F54_544F;

/// `true`: the old Apple TrueType tag, accepted only by lenient parsing.
pub const SFNT_APPLE_TRUE: u32 = 0x7472_7565;

/// The table tag `head`.
pub const HEAD_TAG: [u8; 4] = [0x68, 0x65, 0x61, 0x64];

/// The table tag `hhea`.
pub const HHEA_TAG: [u8; 4] = [0x68, 0x68, 0x65, 0x61];

/// The table tag `OS/2`.
pub const OS2_TAG: [u8; 4] = [0x4F, 0x53, 0x2F, 0x32];

/// The table tag `maxp`.
pub const MAXP_TAG: [u8; 4] = [0x6D, 0x61, 0x78, 0x70];

/// The table tag `hmtx`.
pub const HMTX_TAG: [u8; 4] = [0x68, 0x6D, 0x74, 0x78];

/// The unsigned 16-bit big-endian integer stored at `s[i..i + 2]`.
pub open spec fn be_u16(s: Seq<u8>, i: int) -> u16 {
    (s[i] as int * 0x100 + s[i + 1] as int) as u16
}

/// The signed 16-bit big-endian integer stored at `s[i..i + 2]`.
pub open spec fn be_i16(s: Seq<u8>, i: int) -> i16 {
    be_u16(s, i) as i16
}

/// The unsigned 32-bit big-endian integer stored at `s[i..i + 4]`.
pub open spec fn be_u32(s: Seq<u8>, i: int) -> u32 {
    (s[i] as int * 0x100_0000 + s[i + 1] as int * 0x1_0000 + s[i + 2] as int * 0x100
        + s[i + 3] as int) as u32
}

/// The error for a read that needed the first `needed` bytes of a buffer of
/// `available` bytes. (A read whose end does not even fit in `usize` is
/// reported as needing `usize::MAX` bytes.)
pub open spec fn too_short(needed: int, available: nat) -> Error {
    Error::TooShort {
        needed: if needed <= usize::MAX {
            needed as usize
        } else {
            usize::MAX
        },
        available: available as usize,
    }
}

/// Where the first read that does not fit ends, when fields of `width` bytes
/// are read one after the other starting at byte `start` of a buffer of
/// `len` bytes (`start <= len`).
pub open spec fn next_end(len: int, start: int, width: int) -> int {
    start + width * ((len - start) / width + 1)
}

/// When the field of `width` bytes at `start + k * width` is the first that
/// does not fit, `next_end` is where that field ends.
pub proof fn lemma_next_end(len: int, start: int, width: int, k: int)
    requires
        0 < width,
        0 <= k,
        start + k * width <= len < start + k * width + width,
    ensures
        next_end(len, start, width) == start + k * width + width,
{
    vstd::arithmetic::div_mod::lemma_fundamental_div_mod_converse(
        len - start,
        width,
        k,
        len - start - k * width,
    );
    assert(width * (k + 1) == k * width + width) by (nonlinear_arith);
}

/// Whether the sfnt version tag is accepted.
pub open spec fn sfnt_version_recognized(version: u32, lenient: bool) -> bool {
    version == SFNT_TRUETYPE || version == SFNT_OPENTYPE_CFF || (lenient && version
        == SFNT_APPLE_TRUE)
}

/// The table record stored at `d[p..p + 16]`.
pub open spec fn record_at(d: Seq<u8>, p: int) -> TableRecord {
    TableRecord {
        tag: [d[p], d[p + 1], d[p + 2], d[p + 3]],
        checksum: be_u32(d, p + 4),
        offset: be_u32(d, p + 8),
        length: be_u32(d, p + 12),
    }
}

/// The sfnt header and table directory: a 12-byte header (version,
/// numTables, three search fields) followed by numTables 16-byte records.
pub open spec fn directory_spec(d: Seq<u8>, lenient: bool) -> Result<Seq<TableRecord>, Error> {
    let len = d.len() as int;
    if len < 4 {
        Err(too_short(4, d.len()))
    } else if !sfnt_version_recognized(be_u32(d, 0), lenient) {
        Err(Error::BadSfntVersion(be_u32(d, 0)))
    } else if len < 12 {
        Err(too_short(next_end(len, 4, 2), d.len()))
    } else if len < 12 + 16 * be_u16(d, 4) {
        Err(too_short(next_end(len, 12, 4), d.len()))
    } else {
        Ok(Seq::new(be_u16(d, 4) as nat, |i: int| record_at(d, 12 + 16 * i)))
    }
}

/// The first record of `recs` whose tag is `tag`.
pub open spec fn find_spec(recs: Seq<TableRecord>, tag: [u8; 4]) -> Option<TableRecord>
    decreases recs.len(),
{
    if recs.len() == 0 {
        None
    } else {
        match find_spec(recs.drop_last(), tag) {
            Some(r) => Some(r),
            None => if recs.last().tag == tag {
                Some(recs.last())
            } else {
                None
            },
        }
    }
}

/// Once a prefix of `recs` holds a record with `tag`, the first such record
/// is the one `find_spec` gives for the whole of `recs`.
pub proof fn lemma_find_prefix(recs: Seq<TableRecord>, tag: [u8; 4], j: int)
    requires
        0 <= j <= recs.len(),
        find_spec(recs.take(j), tag) is Some,
    ensures
        find_spec(recs, tag) == find_spec(recs.take(j), tag),
    decreases recs.len(),
{
    if j == recs.len() {
        assert(recs.take(j) =~= recs);
    } else {
        assert(recs.drop_last().take(j) =~= recs.take(j));
        lemma_find_prefix(recs.drop_last(), tag, j);
    }
}

/// Whether the bytes a record points at lie within a file of `len` bytes.
pub open spec fn in_bounds(r: TableRecord, len: nat) -> bool {
    r.offset + r.length <= len
}

pub open spec fn out_of_bounds(r: TableRecord, len: nat) -> Error {
    Error::TableOutOfBounds { tag: r.tag, offset: r.offset, length: r.length, data_len: len as usize }
}

/// The bytes of the table a record points at.
pub open spec fn table_slice(d: Seq<u8>, r: TableRecord) -> Seq<u8> {
    d.subrange(r.offset as int, r.offset + r.length)
}

/// Byte `i` of `s`, with zero bytes past its end.
pub open spec fn padded_byte(s: Seq<u8>, i: int) -> int {
    if i < s.len() {
        s[i] as int
    } else {
        0
    }
}

/// The `k`th big-endian 32-bit word of `s`, zero-padded at the end.
pub open spec fn word_at(s: Seq<u8>, k: int) -> int {
    padded_byte(s, 4 * k) * 0x100_0000 + padded_byte(s, 4 * k + 1) * 0x1_0000 + padded_byte(
        s,
        4 * k + 2,
    ) * 0x100 + padded_byte(s, 4 * k + 3)
}

/// The sum of the first `n` words of `s`.
pub open spec fn word_sum(s: Seq<u8>, n: nat) -> int
    decreases n,
{
    if n == 0 {
        0
    } else {
        word_sum(s, (n - 1) as nat) + word_at(s, n - 1)
    }
}

/// Number of 32-bit words a table of `len` bytes occupies.
pub open spec fn word_count(len: nat) -> nat {
    (len + 3) / 4
}

/// The sfnt table checksum: the sum, modulo 2^32, of the table read as
/// big-endian 32-bit words, the last one zero-padded.
pub open spec fn checksum_spec(s: Seq<u8>) -> u32 {
    (word_sum(s, word_count(s.len())) % 0x1_0000_0000) as u32
}

pub open spec fn checksum_error(r: TableRecord, bytes: Seq<u8>) -> Error {
    Error::ChecksumMismatch { tag: r.tag, expected: r.checksum, actual: checksum_spec(bytes) }
}

/// Whether a table's bytes hash to the checksum its record holds.
pub open spec fn checksum_ok(r: TableRecord, bytes: Seq<u8>) -> bool {
    checksum_spec(bytes) == r.checksum
}

/// `head`: version (2 x u16, must be 1.0), fontRevision, checkSumAdjustment,
/// magicNumber (must be 0x5F0F3CF5), flags, unitsPerEm.
pub open spec fn head_spec(b: Seq<u8>, lenient: bool) -> Result<u16, Error> {
    let len = b.len() as int;
    if len < 4 {
        Err(too_short(next_end(len, 0, 2), b.len()))
    } else if !lenient && !(be_u16(b, 0) == 1 && be_u16(b, 2) == 0) {
        Err(Error::UnsupportedTableVersion { table: "head", major: be_u16(b, 0), minor: be_u16(b, 2) })
    } else if len < 16 {
        Err(too_short(next_end(len, 4, 4), b.len()))
    } else if !lenient && be_u32(b, 12) != HEAD_MAGIC {
        Err(Error::BadMagicNumber(be_u32(b, 12)))
    } else if len < 20 {
        Err(too_short(next_end(len, 16, 2), b.len()))
    } else {
        Ok(be_u16(b, 18))
    }
}

/// What `parse` reads from `hhea`.
pub struct HheaFields {
    pub ascender: i16,
    pub descender: i16,
    pub line_gap: i16,
    pub advance_width_max: u16,
    pub number_of_h_metrics: u16,
}

/// `hhea`: version (2 x u16, must be 1.0) followed by sixteen 16-bit fields,
/// of which ascender, descender, lineGap, advanceWidthMax (the first four)
/// and numberOfHMetrics (the last) are kept.
pub open spec fn hhea_spec(b: Seq<u8>, lenient: bool) -> Result<HheaFields, Error> {
    let len = b.len() as int;
    if len < 4 {
        Err(too_short(next_end(len, 0, 2), b.len()))
    } else if !lenient && !(be_u16(b, 0) == 1 && be_u16(b, 2) == 0) {
        Err(Error::UnsupportedTableVersion { table: "hhea", major: be_u16(b, 0), minor: be_u16(b, 2) })
    } else if len < 36 {
        Err(too_short(next_end(len, 4, 2), b.len()))
    } else {
        Ok(
            HheaFields {
                ascender: be_i16(b, 4),
                descender: be_i16(b, 6),
                line_gap: be_i16(b, 8),
                advance_width_max: be_u16(b, 10),
                number_of_h_metrics: be_u16(b, 34),
            },
        )
    }
}

/// What `parse` reads from `OS/2`.
pub struct Os2Fields {
    pub typo_ascender: i16,
    pub typo_descender: i16,
    pub typo_line_gap: i16,
    pub win_ascent: u16,
    pub win_descent: u16,
}

/// `OS/2`: version (at most 5), then fields skipped in runs ending at bytes
/// 4, 6, 8, 10, 30, 32, 42, 58, 62, 64, 66, 68, then sTypoAscender,
/// sTypoDescender, sTypoLineGap, usWinAscent, usWinDescent (bytes 68..78).
pub open spec fn os2_spec(b: Seq<u8>, lenient: bool) -> Result<Os2Fields, Error> {
    let len = b.len() as int;
    if len < 2 {
        Err(too_short(2, b.len()))
    } else if !lenient && be_u16(b, 0) > OS2_MAX_KNOWN_VERSION {
        Err(Error::UnsupportedTableVersion { table: "OS/2", major: be_u16(b, 0), minor: 0 })
    } else if len < 10 {
        Err(too_short(next_end(len, 2, 2), b.len()))
    } else if len < 30 {
        Err(too_short(30, b.len()))
    } else if len < 32 {
        Err(too_short(32, b.len()))
    } else if len < 42 {
        Err(too_short(42, b.len()))
    } else if len < 58 {
        Err(too_short(58, b.len()))
    } else if len < 62 {
        Err(too_short(62, b.len()))
    } else if len < 78 {
        Err(too_short(next_end(len, 62, 2), b.len()))
    } else {
        Ok(
            Os2Fields {
                typo_ascender: be_i16(b, 68),
                typo_descender: be_i16(b, 70),
                typo_line_gap: be_i16(b, 72),
                win_ascent: be_u16(b, 74),
                win_descent: be_u16(b, 76),
            },
        )
    }
}

/// The three tables `parse` needs, located and bounds-checked, and in strict
/// mode checksum-verified, in the order `parse` does it.
pub open spec fn locate_three(
    d: Seq<u8>,
    lenient: bool,
    tags: (([u8; 4], &'static str), ([u8; 4], &'static str), ([u8; 4], &'static str)),
) -> Result<(Seq<u8>, Seq<u8>, Seq<u8>), Error> {
    match directory_spec(d, lenient) {
        Err(e) => Err(e),
        Ok(recs) => match (
            find_spec(recs, tags.0.0),
            find_spec(recs, tags.1.0),
            find_spec(recs, tags.2.0),
        ) {
            (None, _, _) => Err(Error::MissingTable(tags.0.1)),
            (Some(_), None, _) => Err(Error::MissingTable(tags.1.1)),
            (Some(_), Some(_), None) => Err(Error::MissingTable(tags.2.1)),
            (Some(r0), Some(r1), Some(r2)) => {
                if !in_bounds(r0, d.len()) {
                    Err(out_of_bounds(r0, d.len()))
                } else if !in_bounds(r1, d.len()) {
                    Err(out_of_bounds(r1, d.len()))
                } else if !in_bounds(r2, d.len()) {
                    Err(out_of_bounds(r2, d.len()))
                } else {
                    let (b0, b1, b2) = (table_slice(d, r0), table_slice(d, r1), table_slice(d, r2));
                    if !lenient && !checksum_ok(r0, b0) {
                        Err(checksum_error(r0, b0))
                    } else if !lenient && !checksum_ok(r1, b1) {
                        Err(checksum_error(r1, b1))
                    } else if !lenient && !checksum_ok(r2, b2) {
                        Err(checksum_error(r2, b2))
                    } else {
                        Ok((b0, b1, b2))
                    }
                }
            },
        },
    }
}

/// What `parse` returns for the bytes `d`.
pub open spec fn parse_spec(d: Seq<u8>, lenient: bool) -> Result<FontMetrics, Error> {
    match locate_three(d, lenient, ((HEAD_TAG, "head"), (HHEA_TAG, "hhea"), (OS2_TAG, "OS/2"))) {
        Err(e) => Err(e),
        Ok((head, hhea, os2)) => match head_spec(head, lenient) {
            Err(e) => Err(e),
            Ok(units_per_em) => match hhea_spec(hhea, lenient) {
                Err(e) => Err(e),
                Ok(h) => match os2_spec(os2, lenient) {
                    Err(e) => Err(e),
                    Ok(o) => Ok(
                        FontMetrics {
                            units_per_em,
                            ascender: h.ascender,
                            descender: h.descender,
                            line_gap: h.line_gap,
                            advance_width_max: h.advance_width_max,
                            number_of_h_metrics: h.number_of_h_metrics,
                            typo_ascender: o.typo_ascender,
                            typo_descender: o.typo_descender,
                            typo_line_gap: o.typo_line_gap,
                            win_ascent: o.win_ascent,
                            win_descent: o.win_descent,
                        },
                    ),
                },
            },
        },
    }
}

/// Number of bytes of `hmtx` that `advance_widths` reads: a 4-byte
/// (advanceWidth, lsb) pair for each of the first `nhm` glyphs and a 2-byte
/// lsb for each of the remaining `ng - nhm`.
pub open spec fn hmtx_len_needed(nhm: u16, ng: u16) -> int {
    if nhm < ng {
        4 * nhm + 2 * (ng - nhm)
    } else {
        4 * nhm
    }
}

/// The advance width of glyph `i`: the explicit one for the first `nhm`
/// glyphs, the last explicit one (0 if there is none) after that.
pub open spec fn width_of(hmtx: Seq<u8>, nhm: u16, i: int) -> u16 {
    if i < nhm {
        be_u16(hmtx, 4 * i)
    } else if nhm == 0 {
        0
    } else {
        be_u16(hmtx, 4 * (nhm - 1))
    }
}

/// The advance widths read from `hmtx` for `nhm` long metrics and `ng`
/// glyphs: one per glyph, or one per long metric when there are more of
/// those. Every field read is 2 bytes wide, so a short table fails at the
/// first even offset past its end.
pub open spec fn hmtx_spec(hmtx: Seq<u8>, nhm: u16, ng: u16) -> Result<Seq<u16>, Error> {
    if hmtx.len() < hmtx_len_needed(nhm, ng) {
        Err(too_short(next_end(hmtx.len() as int, 0, 2), hmtx.len()))
    } else {
        Ok(
            Seq::new(
                if nhm < ng {
                    ng as nat
                } else {
                    nhm as nat
                },
                |i: int| width_of(hmtx, nhm, i),
            ),
        )
    }
}

/// What `advance_widths` returns for the bytes `d`.
pub open spec fn advance_widths_spec(d: Seq<u8>, lenient: bool) -> Result<Seq<u16>, Error> {
    match locate_three(d, lenient, ((HHEA_TAG, "hhea"), (MAXP_TAG, "maxp"), (HMTX_TAG, "hmtx"))) {
        Err(e) => Err(e),
        Ok((hhea, maxp, hmtx)) => {
            if hhea.len() < 34 {
                Err(too_short(34, hhea.len()))
            } else if hhea.len() < 36 {
                Err(too_short(36, hhea.len()))
            } else if maxp.len() < 4 {
                Err(too_short(4, maxp.len()))
            } else if maxp.len() < 6 {
                Err(too_short(6, maxp.len()))
            } else {
                let nhm = be_u16(hhea, 34);
                let ng = be_u16(maxp, 4);
                if !lenient && nhm > ng {
                    Err(Error::InvalidHMetricsCount { number_of_h_metrics: nhm, num_glyphs: ng })
                } else {
                    hmtx_spec(hmtx, nhm, ng)
                }
            }
        },
    }
}

} // verus!
