//! Reads vertical metrics (units per em, ascender, descender, line gap) and
//! per-glyph advance widths out of TrueType and OpenType files by walking
//! the sfnt table directory and the `head`/`hhea`/`OS/2`/`maxp`/`hmtx`
//! tables directly.
//!
//! By default every check the format allows for is enforced: table
//! checksums must match the directory, `head`'s magic number must be
//! correct, and table versions must be ones this parser was written
//! against. [`ParseOptions::lenient`] turns all of that off and extracts
//! whatever the byte layout will still yield.
//!
//! `format` states what `parse` and `advance_widths` compute as functions
//! of the input bytes; `laws` proves properties of those functions.
use vstd::prelude::*;

mod checksum;
mod error;
pub mod format;
pub mod laws;
mod reader;

pub use checksum::table_checksum;
pub use error::{tag_str, Error};

use format::{
    advance_widths_spec, be_u16, be_u32, checksum_error, checksum_ok, directory_spec, find_spec,
    head_spec, hhea_spec, hmtx_spec, in_bounds, lemma_find_prefix, lemma_next_end, os2_spec, out_of_bounds,
    parse_spec, record_at, sfnt_version_recognized, table_slice, width_of, HheaFields, Os2Fields,
    HEAD_MAGIC, HEAD_TAG, HHEA_TAG, HMTX_TAG, MAXP_TAG, OS2_MAX_KNOWN_VERSION, OS2_TAG,
    SFNT_APPLE_TRUE, SFNT_OPENTYPE_CFF, SFNT_TRUETYPE,
};
use reader::Reader;

verus! {

/// Controls how much a malformed font is tolerated.
///
/// The default is strict. Call [`ParseOptions::lenient`] to get a parser
/// that skips checksum verification, magic number checks, and table
/// version checks, and instead tries to read the fields it needs anyway.
#[derive(Debug, Clone, Copy)]
pub struct ParseOptions {
    lenient: bool,
}

impl ParseOptions {
    /// Whether these options skip the checks that only strict mode makes.
    pub closed spec fn lenient_mode(self) -> bool {
        self.lenient
    }

    /// The default: reject fonts with bad checksums, bad magic numbers, or
    /// unrecognized table versions.
    pub fn strict() -> (res: Self)
        ensures
            !res.lenient_mode(),
    {
        ParseOptions { lenient: false }
    }

    /// Skip the checks above and extract metrics on a best-effort basis.
    pub fn lenient() -> (res: Self)
        ensures
            res.lenient_mode(),
    {
        ParseOptions { lenient: true }
    }

    pub fn is_lenient(&self) -> (res: bool)
        ensures
            res == self.lenient_mode(),
    {
        self.lenient
    }
}

impl Default for ParseOptions {
    /// The same options as [`ParseOptions::strict`].
    fn default() -> (res: Self)
        ensures
            !res.lenient_mode(),
    {
        ParseOptions::strict()
    }
}

/// The subset of a font's vertical metrics needed for line layout.
#[derive(Debug, Clone, Copy, PartialEq, Eq)]
pub struct FontMetrics {
    /// Size of the em square, in font design units. Every other field here
    /// is expressed in these units.
    pub units_per_em: u16,
    /// Distance from the baseline to the top of the em square (`hhea.ascender`).
    pub ascender: i16,
    /// Distance from the baseline to the bottom of the em square (`hhea.descender`,
    /// typically negative).
    pub descender: i16,
    /// Extra spacing a typesetter should add between lines (`hhea.lineGap`).
    pub line_gap: i16,
    /// Widest advance width of any glyph in the font.
    pub advance_width_max: u16,
    /// Number of entries in the `hmtx` table's advance-width array.
    pub number_of_h_metrics: u16,
    /// Recommended ascender for Windows text clipping (`OS/2.sTypoAscender`).
    pub typo_ascender: i16,
    /// Recommended descender for Windows text clipping (`OS/2.sTypoDescender`,
    /// typically negative).
    pub typo_descender: i16,
    /// Recommended line gap to pair with the typo metrics (`OS/2.sTypoLineGap`).
    pub typo_line_gap: i16,
    /// Windows-specific ascent used for glyph clipping (`OS/2.usWinAscent`).
    pub win_ascent: u16,
    /// Windows-specific descent used for glyph clipping (`OS/2.usWinDescent`,
    /// stored unsigned even though it measures below the baseline).
    pub win_descent: u16,
}

impl FontMetrics {
    /// `ascender - descender + line_gap`, in design units: the recommended
    /// distance between successive baselines.
    pub fn line_height(&self) -> (res: i32)
        ensures
            res == self.ascender - self.descender + self.line_gap,
    {
        self.ascender as i32 - self.descender as i32 + self.line_gap as i32
    }
}

/// One entry of the sfnt table directory.
pub struct TableRecord {
    pub tag: [u8; 4],
    pub checksum: u32,
    pub offset: u32,
    pub length: u32,
}

/// Read the sfnt version and table directory shared by [`parse`] and
/// [`advance_widths`].
fn read_table_directory(data: &[u8], options: &ParseOptions) -> (res: Result<Vec<TableRecord>, Error>)
    ensures
        match res {
            Ok(v) => directory_spec(data@, options.lenient) == Ok::<Seq<TableRecord>, Error>(v@),
            Err(e) => directory_spec(data@, options.lenient) == Err::<Seq<TableRecord>, Error>(e),
        },
{
    let mut r = Reader::new(data);

    let sfnt_version = r.u32()?;
    let recognized = sfnt_version == SFNT_TRUETYPE || sfnt_version == SFNT_OPENTYPE_CFF
        || (options.lenient && sfnt_version == SFNT_APPLE_TRUE);
    if !recognized {
        return Err(Error::BadSfntVersion(sfnt_version));
    }

    let num_tables = r.u16()?;
    r.u16()?;  // searchRange
    r.u16()?;  // entrySelector
    r.u16()?;  // rangeShift

    let mut records: Vec<TableRecord> = Vec::new();
    let mut i: u16 = 0;
    while i < num_tables
        invariant
            r.data@ == data@,
            num_tables == be_u16(data@, 4),
            sfnt_version_recognized(be_u32(data@, 0), options.lenient),
            data@.len() >= 12,
            i <= num_tables,
            r.pos == 12 + 16 * i,
            r.pos <= data@.len(),
            records@ == Seq::new(i as nat, |j: int| record_at(data@, 12 + 16 * j)),
        decreases num_tables - i,
    {
        let tag = r.tag()?;
        let checksum = r.u32()?;
        let offset = r.u32()?;
        let length = r.u32()?;
        let rec = TableRecord { tag, checksum, offset, length };
        assert(rec.tag =~= record_at(data@, 12 + 16 * i).tag);
        records.push(rec);
        assert(records@ =~= Seq::new((i + 1) as nat, |j: int| record_at(data@, 12 + 16 * j)));
        i = i + 1;
    }
    Ok(records)
}

/// The first directory record with the given tag.
fn find_table<'a>(records: &'a [TableRecord], tag: &[u8; 4]) -> (res: Option<&'a TableRecord>)
    ensures
        match res {
            Some(r) => find_spec(records@, *tag) == Some(*r),
            None => find_spec(records@, *tag) is None,
        },
{
    let mut i: usize = 0;
    while i < records.len()
        invariant
            i <= records@.len(),
            find_spec(records@.take(i as int), *tag) is None,
        decreases records@.len() - i,
    {
        let r = &records[i];
        assert(records@.take(i + 1).drop_last() =~= records@.take(i as int));
        if r.tag[0] == tag[0] && r.tag[1] == tag[1] && r.tag[2] == tag[2] && r.tag[3] == tag[3] {
            assert(r.tag =~= *tag);
            proof {
                lemma_find_prefix(records@, *tag, i + 1);
            }
            return Some(r);
        }
        assert(r.tag != *tag) by {
            if r.tag == *tag {
                assert(r.tag[0] == tag[0]);
            }
        }
        i = i + 1;
    }
    assert(records@.take(i as int) =~= records@);
    None
}

/// The bytes of the table a record points at, if they lie within `data`.
fn table_bytes<'a>(data: &'a [u8], record: &TableRecord) -> (res: Result<&'a [u8], Error>)
    ensures
        match res {
            Ok(b) => in_bounds(*record, data@.len()) && b@ == table_slice(data@, *record),
            Err(e) => !in_bounds(*record, data@.len()) && e == out_of_bounds(*record, data@.len()),
        },
{
    let start = record.offset as usize;
    match start.checked_add(record.length as usize) {
        Some(end) if end <= data.len() => Ok(&data[start..end]),
        _ => Err(
            Error::TableOutOfBounds {
                tag: record.tag,
                offset: record.offset,
                length: record.length,
                data_len: data.len(),
            },
        ),
    }
}

/// `Ok` exactly when the table's bytes hash to the checksum its record holds.
fn verify_checksum(record: &TableRecord, bytes: &[u8]) -> (res: Result<(), Error>)
    ensures
        match res {
            Ok(_) => checksum_ok(*record, bytes@),
            Err(e) => !checksum_ok(*record, bytes@) && e == checksum_error(*record, bytes@),
        },
{
    let actual = table_checksum(bytes);
    if actual != record.checksum {
        return Err(Error::ChecksumMismatch { tag: record.tag, expected: record.checksum, actual });
    }
    Ok(())
}

/// Read `head` up to `unitsPerEm`, checking its version and magic number
/// unless lenient.
fn read_head(bytes: &[u8], options: &ParseOptions) -> (res: Result<u16, Error>)
    ensures
        res == head_spec(bytes@, options.lenient),
{
    let mut head = Reader::new(bytes);
    let head_major = head.u16()?;
    let head_minor = head.u16()?;
    if !options.lenient && !(head_major == 1 && head_minor == 0) {
        return Err(Error::UnsupportedTableVersion { table: "head", major: head_major, minor: head_minor });
    }
    head.u32()?;  // fontRevision
    head.u32()?;  // checkSumAdjustment
    let magic = head.u32()?;
    if !options.lenient && magic != HEAD_MAGIC {
        return Err(Error::BadMagicNumber(magic));
    }
    head.u16()?;  // flags
    let units_per_em = head.u16()?;
    Ok(units_per_em)
}

/// Read `hhea` up to `numberOfHMetrics`, checking its version unless lenient.
fn read_hhea(bytes: &[u8], options: &ParseOptions) -> (res: Result<HheaFields, Error>)
    ensures
        res == hhea_spec(bytes@, options.lenient),
{
    let mut hhea = Reader::new(bytes);
    let hhea_major = hhea.u16()?;
    let hhea_minor = hhea.u16()?;
    if !options.lenient && !(hhea_major == 1 && hhea_minor == 0) {
        return Err(Error::UnsupportedTableVersion { table: "hhea", major: hhea_major, minor: hhea_minor });
    }
    let ascender = hhea.i16()?;
    let descender = hhea.i16()?;
    let line_gap = hhea.i16()?;
    let advance_width_max = hhea.u16()?;
    hhea.i16()?;  // minLeftSideBearing
    hhea.i16()?;  // minRightSideBearing
    hhea.i16()?;  // xMaxExtent
    hhea.i16()?;  // caretSlopeRise
    hhea.i16()?;  // caretSlopeRun
    hhea.i16()?;  // caretOffset
    let mut k: usize = 0;
    while k < 4
        invariant
            hhea.data@ == bytes@,
            k <= 4,
            hhea.pos == 24 + 2 * k,
            hhea.pos <= bytes@.len(),
            options.lenient || (be_u16(bytes@, 0) == 1 && be_u16(bytes@, 2) == 0),
        decreases 4 - k,
    {
        hhea.i16()?;  // reserved
        k = k + 1;
    }
    hhea.i16()?;  // metricDataFormat
    let number_of_h_metrics = hhea.u16()?;
    Ok(HheaFields { ascender, descender, line_gap, advance_width_max, number_of_h_metrics })
}

/// Read `OS/2` up to `usWinDescent`, checking its version unless lenient.
fn read_os2(bytes: &[u8], options: &ParseOptions) -> (res: Result<Os2Fields, Error>)
    ensures
        res == os2_spec(bytes@, options.lenient),
{
    let mut os2 = Reader::new(bytes);
    let os2_version = os2.u16()?;
    if !options.lenient && os2_version > OS2_MAX_KNOWN_VERSION {
        return Err(Error::UnsupportedTableVersion { table: "OS/2", major: os2_version, minor: 0 });
    }
    os2.skip(2)?;  // xAvgCharWidth
    os2.skip(2)?;  // usWeightClass
    os2.skip(2)?;  // usWidthClass
    os2.skip(2)?;  // fsType
    os2.skip(20)?;  // sub/superscript and strikeout metrics, 10 int16 fields
    os2.skip(2)?;  // sFamilyClass
    os2.skip(10)?;  // panose
    os2.skip(16)?;  // ulUnicodeRange1..4
    os2.skip(4)?;  // achVendID
    os2.skip(2)?;  // fsSelection
    os2.skip(2)?;  // usFirstCharIndex
    os2.skip(2)?;  // usLastCharIndex
    let typo_ascender = os2.i16()?;
    let typo_descender = os2.i16()?;
    let typo_line_gap = os2.i16()?;
    let win_ascent = os2.u16()?;
    let win_descent = os2.u16()?;
    Ok(Os2Fields { typo_ascender, typo_descender, typo_line_gap, win_ascent, win_descent })
}

/// Parse the sfnt table directory and `head`/`hhea`/`OS/2` tables of `data`
/// and return the metrics they describe.
///
/// Succeeds exactly when `parse_spec` does: the directory is well formed
/// and its version recognized, the three tables are present and lie within
/// `data`, and (unless lenient) their checksums, `head`'s magic number and
/// the table versions are right, and each table is long enough for the
/// fields read from it. Each error names the first check that failed.
pub fn parse(data: &[u8], options: &ParseOptions) -> (res: Result<FontMetrics, Error>)
    ensures
        res == parse_spec(data@, options.lenient_mode()),
{
    let records = read_table_directory(data, options)?;

    let head_record = match find_table(records.as_slice(), &HEAD_TAG) {
        Some(r) => r,
        None => return Err(Error::MissingTable("head")),
    };
    let hhea_record = match find_table(records.as_slice(), &HHEA_TAG) {
        Some(r) => r,
        None => return Err(Error::MissingTable("hhea")),
    };
    let os2_record = match find_table(records.as_slice(), &OS2_TAG) {
        Some(r) => r,
        None => return Err(Error::MissingTable("OS/2")),
    };

    let head_bytes = table_bytes(data, head_record)?;
    let hhea_bytes = table_bytes(data, hhea_record)?;
    let os2_bytes = table_bytes(data, os2_record)?;

    if !options.lenient {
        verify_checksum(head_record, head_bytes)?;
        verify_checksum(hhea_record, hhea_bytes)?;
        verify_checksum(os2_record, os2_bytes)?;
    }

    let units_per_em = read_head(head_bytes, options)?;
    let h = read_hhea(hhea_bytes, options)?;
    let o = read_os2(os2_bytes, options)?;

    Ok(
        FontMetrics {
            units_per_em,
            ascender: h.ascender,
            descender: h.descender,
            line_gap: h.line_gap,
            advance_width_max: h.advance_width_max,
            number_of_h_metrics: h.number_of_h_metrics,
            typo_ascender: o.typo_ascender,
            typo_descender: o.typo_descender,
            typo_line_gap: o.typo_line_gap,
            win_ascent: o.win_ascent,
            win_descent: o.win_descent,
        },
    )
}

/// Parse the `hmtx` table and return each glyph's advance width, indexed by
/// glyph ID.
///
/// `hmtx` only stores an explicit `(advanceWidth, lsb)` pair for the first
/// `hhea.numberOfHMetrics` glyphs; every glyph after that reuses the last
/// advance width in the table and stores only its left side bearing. This
/// fills in those trailing entries so the returned `Vec` has one width per
/// glyph (per `maxp.numGlyphs`); a lenient parse that meets more long
/// metrics than glyphs returns one width per long metric instead.
pub fn advance_widths(data: &[u8], options: &ParseOptions) -> (res: Result<Vec<u16>, Error>)
    ensures
        match res {
            Ok(w) => advance_widths_spec(data@, options.lenient_mode()) == Ok::<Seq<u16>, Error>(w@),
            Err(e) => advance_widths_spec(data@, options.lenient_mode()) == Err::<Seq<u16>, Error>(e),
        },
{
    let records = read_table_directory(data, options)?;

    let hhea_record = match find_table(records.as_slice(), &HHEA_TAG) {
        Some(r) => r,
        None => return Err(Error::MissingTable("hhea")),
    };
    let maxp_record = match find_table(records.as_slice(), &MAXP_TAG) {
        Some(r) => r,
        None => return Err(Error::MissingTable("maxp")),
    };
    let hmtx_record = match find_table(records.as_slice(), &HMTX_TAG) {
        Some(r) => r,
        None => return Err(Error::MissingTable("hmtx")),
    };

    let hhea_bytes = table_bytes(data, hhea_record)?;
    let maxp_bytes = table_bytes(data, maxp_record)?;
    let hmtx_bytes = table_bytes(data, hmtx_record)?;

    if !options.lenient {
        verify_checksum(hhea_record, hhea_bytes)?;
        verify_checksum(maxp_record, maxp_bytes)?;
        verify_checksum(hmtx_record, hmtx_bytes)?;
    }

    let mut hhea = Reader::new(hhea_bytes);
    hhea.skip(34)?;  // everything before numberOfHMetrics
    let number_of_h_metrics = hhea.u16()?;

    let mut maxp = Reader::new(maxp_bytes);
    maxp.u32()?;  // version (0.5 and 1.0 both start with version, numGlyphs)
    let num_glyphs = maxp.u16()?;

    if !options.lenient && number_of_h_metrics > num_glyphs {
        return Err(Error::InvalidHMetricsCount { number_of_h_metrics, num_glyphs });
    }

    read_hmtx(hmtx_bytes, number_of_h_metrics, num_glyphs)
}

/// Read `number_of_h_metrics` long metrics from `hmtx`, then one lsb-only
/// entry for each further glyph up to `num_glyphs`, and return the advance
/// width of each glyph read.
fn read_hmtx(bytes: &[u8], number_of_h_metrics: u16, num_glyphs: u16) -> (res: Result<Vec<u16>, Error>)
    ensures
        match res {
            Ok(w) => hmtx_spec(bytes@, number_of_h_metrics, num_glyphs) == Ok::<Seq<u16>, Error>(w@),
            Err(e) => hmtx_spec(bytes@, number_of_h_metrics, num_glyphs) == Err::<Seq<u16>, Error>(e),
        },
{
    let mut hmtx = Reader::new(bytes);
    let mut widths: Vec<u16> = Vec::with_capacity(num_glyphs as usize);
    let mut i: u16 = 0;
    while i < number_of_h_metrics
        invariant
            hmtx.data@ == bytes@,
            i <= number_of_h_metrics,
            hmtx.pos == 4 * i,
            hmtx.pos <= bytes@.len(),
            widths@ == Seq::new(i as nat, |k: int| width_of(bytes@, number_of_h_metrics, k)),
        decreases number_of_h_metrics - i,
    {
        proof {
            if bytes@.len() < hmtx.pos + 2 {
                lemma_next_end(bytes@.len() as int, 0, 2, 2 * i);
            } else if bytes@.len() < hmtx.pos + 4 {
                lemma_next_end(bytes@.len() as int, 0, 2, 2 * i + 1);
            }
        }
        let w = hmtx.u16()?;
        widths.push(w);
        hmtx.skip(2)?;  // lsb, not needed for advance widths
        assert(widths@ =~= Seq::new((i + 1) as nat, |k: int| width_of(bytes@, number_of_h_metrics, k)));
        i = i + 1;
    }

    let last_width = if widths.len() == 0 {
        0
    } else {
        widths[widths.len() - 1]
    };
    let mut j: u16 = number_of_h_metrics;
    while j < num_glyphs
        invariant
            hmtx.data@ == bytes@,
            number_of_h_metrics <= j,
            j <= num_glyphs || j == number_of_h_metrics,
            hmtx.pos == 4 * number_of_h_metrics + 2 * (j - number_of_h_metrics),
            hmtx.pos <= bytes@.len(),
            last_width == width_of(bytes@, number_of_h_metrics, number_of_h_metrics as int),
            widths@ == Seq::new(j as nat, |k: int| width_of(bytes@, number_of_h_metrics, k)),
        decreases num_glyphs - j,
    {
        proof {
            if bytes@.len() < hmtx.pos + 2 {
                lemma_next_end(bytes@.len() as int, 0, 2, j + number_of_h_metrics);
            }
        }
        hmtx.skip(2)?;  // lsb-only entry; advance width repeats the last one
        widths.push(last_width);
        assert(widths@ =~= Seq::new((j + 1) as nat, |k: int| width_of(bytes@, number_of_h_metrics, k)));
        j = j + 1;
    }

    Ok(widths)
}

} // verus!
