use vstd::prelude::*;

verus! {

/// Everything that can go wrong while reading an sfnt-based font.
///
/// Several of these are only raised in strict mode (the default); see
/// [`crate::ParseOptions`] for which checks `lenient()` turns off.
#[derive(Debug)]
pub enum Error {
    /// The reader ran past the end of the buffer.
    TooShort { needed: usize, available: usize },
    /// The first four bytes of the file are not a version tag we recognize.
    BadSfntVersion(u32),
    /// A table required to compute metrics was not present in the directory.
    MissingTable(&'static str),
    /// A table directory entry points outside the bounds of the file.
    TableOutOfBounds { tag: [u8; 4], offset: u32, length: u32, data_len: usize },
    /// The bytes of a table do not hash to the checksum recorded for it.
    ChecksumMismatch { tag: [u8; 4], expected: u32, actual: u32 },
    /// The `head` table's magic number is not `0x5F0F3CF5`.
    BadMagicNumber(u32),
    /// A table declares a major/minor version this parser does not accept.
    UnsupportedTableVersion { table: &'static str, major: u16, minor: u16 },
    /// `hhea.numberOfHMetrics` exceeds `maxp.numGlyphs`.
    InvalidHMetricsCount { number_of_h_metrics: u16, num_glyphs: u16 },
}

/// Whether `b` is a printable, non-space ASCII character (`!` through `~`).
pub open spec fn is_ascii_graphic(b: u8) -> bool {
    0x21 <= b && b <= 0x7e
}

/// How `tag_str` shows one byte of a tag.
pub open spec fn tag_char(b: u8) -> char {
    if is_ascii_graphic(b) {
        b as char
    } else {
        '.'
    }
}

/// Appends one character to a string: `String::push`.
#[verifier::external_body]
fn push_char(s: &mut String, c: char)
    ensures
        final(s)@ == old(s)@.push(c),
{
    s.push(c);
}

/// A printable rendering of a table tag: each graphic ASCII byte as its
/// character, every other byte as `.`.
pub fn tag_str(tag: &[u8; 4]) -> (res: String)
    ensures
        res@ == tag_chars(*tag),
{
    let mut out = String::new();
    let mut i: usize = 0;
    while i < 4
        invariant
            i <= 4,
            out@ == Seq::new(i as nat, |k: int| tag_char(tag[k])),
        decreases 4 - i,
    {
        let b = tag[i];
        let c = if 0x21 <= b && b <= 0x7e {
            b as char
        } else {
            '.'
        };
        push_char(&mut out, c);
        assert(out@ =~= Seq::new((i + 1) as nat, |k: int| tag_char(tag[k])));
        i = i + 1;
    }
    out
}

/// The character of a digit `d` (0 to 15): `0`-`9`, then upper-case `A`-`F`.
pub open spec fn digit_char(d: int) -> char {
    if d < 10 {
        (0x30 + d) as char
    } else {
        (0x41 + d - 10) as char
    }
}

/// `n` written in decimal, without leading zeros.
pub open spec fn dec(n: nat) -> Seq<char>
    decreases n,
{
    if n < 10 {
        seq![digit_char(n as int)]
    } else {
        dec(n / 10).push(digit_char((n % 10) as int))
    }
}

/// The last `k` hexadecimal digits of `v`, upper case, zero-padded.
pub open spec fn hex_digits(v: nat, k: nat) -> Seq<char>
    decreases k,
{
    if k == 0 {
        Seq::empty()
    } else {
        hex_digits(v / 16, (k - 1) as nat).push(digit_char((v % 16) as int))
    }
}

/// A 32-bit value as eight upper-case hexadecimal digits.
pub open spec fn hex8(v: u32) -> Seq<char> {
    hex_digits(v as nat, 8)
}

/// A tag as `tag_str` shows it.
pub open spec fn tag_chars(tag: [u8; 4]) -> Seq<char> {
    Seq::new(4, |i: int| tag_char(tag[i]))
}

/// The message that describes an error.
pub open spec fn error_message(e: Error) -> Seq<char> {
    match e {
        Error::TooShort { needed, available } => "unexpected end of data: needed "@ + dec(
            needed as nat,
        ) + " bytes, had "@ + dec(available as nat),
        Error::BadSfntVersion(v) => "unrecognized sfnt version 0x"@ + hex8(v),
        Error::MissingTable(tag) => "font is missing required table '"@ + tag@ + "'"@,
        Error::TableOutOfBounds { tag, offset, length, data_len } => "table '"@ + tag_chars(tag)
            + "' at offset "@ + dec(offset as nat) + " length "@ + dec(length as nat)
            + " extends past end of file ("@ + dec(data_len as nat) + " bytes)"@,
        Error::ChecksumMismatch { tag, expected, actual } => "table '"@ + tag_chars(tag)
            + "' checksum mismatch: directory says 0x"@ + hex8(expected) + ", computed 0x"@
            + hex8(actual),
        Error::BadMagicNumber(v) => "head table magic number is 0x"@ + hex8(v)
            + ", expected 0x5F0F3CF5"@,
        Error::UnsupportedTableVersion { table, major, minor } => "unsupported '"@ + table@
            + "' table version "@ + dec(major as nat) + "."@ + dec(minor as nat),
        Error::InvalidHMetricsCount { number_of_h_metrics, num_glyphs } =>
            "hhea numberOfHMetrics "@ + dec(number_of_h_metrics as nat)
            + " exceeds maxp numGlyphs "@ + dec(num_glyphs as nat),
    }
}

fn digit(d: u8) -> (c: char)
    requires
        d < 16,
    ensures
        c == digit_char(d as int),
{
    if d < 10 {
        (0x30 + d) as char
    } else {
        (0x41 + d - 10) as char
    }
}

/// Append `n` in decimal.
fn push_dec(out: &mut String, n: u64)
    ensures
        final(out)@ == old(out)@ + dec(n as nat),
    decreases n,
{
    if n >= 10 {
        push_dec(out, n / 10);
    }
    push_char(out, digit((n % 10) as u8));
    assert(final(out)@ =~= old(out)@ + dec(n as nat));
}

/// Append the last `k` hexadecimal digits of `v`.
fn push_hex(out: &mut String, v: u32, k: u32)
    ensures
        final(out)@ == old(out)@ + hex_digits(v as nat, k as nat),
    decreases k,
{
    if k > 0 {
        push_hex(out, v / 16, k - 1);
        push_char(out, digit((v % 16) as u8));
        assert(final(out)@ =~= old(out)@ + hex_digits(v as nat, k as nat));
    } else {
        assert(final(out)@ =~= old(out)@ + hex_digits(v as nat, k as nat));
    }
}

/// Append `s`.
fn push_str(out: &mut String, s: &str)
    ensures
        final(out)@ == old(out)@ + s@,
{
    out.append(s);
}

impl Error {
    /// A human-readable description of the error.
    pub fn message(&self) -> (res: String)
        ensures
            res@ == error_message(*self),
    {
        let mut out = String::new();
        match self {
            Error::TooShort { needed, available } => {
                push_str(&mut out, "unexpected end of data: needed ");
                push_dec(&mut out, *needed as u64);
                push_str(&mut out, " bytes, had ");
                push_dec(&mut out, *available as u64);
            },
            Error::BadSfntVersion(v) => {
                push_str(&mut out, "unrecognized sfnt version 0x");
                push_hex(&mut out, *v, 8);
            },
            Error::MissingTable(tag) => {
                push_str(&mut out, "font is missing required table '");
                push_str(&mut out, tag);
                push_str(&mut out, "'");
            },
            Error::TableOutOfBounds { tag, offset, length, data_len } => {
                push_str(&mut out, "table '");
                let t = tag_str(tag);
                push_str(&mut out, t.as_str());
                push_str(&mut out, "' at offset ");
                push_dec(&mut out, *offset as u64);
                push_str(&mut out, " length ");
                push_dec(&mut out, *length as u64);
                push_str(&mut out, " extends past end of file (");
                push_dec(&mut out, *data_len as u64);
                push_str(&mut out, " bytes)");
            },
            Error::ChecksumMismatch { tag, expected, actual } => {
                push_str(&mut out, "table '");
                let t = tag_str(tag);
                push_str(&mut out, t.as_str());
                push_str(&mut out, "' checksum mismatch: directory says 0x");
                push_hex(&mut out, *expected, 8);
                push_str(&mut out, ", computed 0x");
                push_hex(&mut out, *actual, 8);
            },
            Error::BadMagicNumber(v) => {
                push_str(&mut out, "head table magic number is 0x");
                push_hex(&mut out, *v, 8);
                push_str(&mut out, ", expected 0x5F0F3CF5");
            },
            Error::UnsupportedTableVersion { table, major, minor } => {
                push_str(&mut out, "unsupported '");
                push_str(&mut out, table);
                push_str(&mut out, "' table version ");
                push_dec(&mut out, *major as u64);
                push_str(&mut out, ".");
                push_dec(&mut out, *minor as u64);
            },
            Error::InvalidHMetricsCount { number_of_h_metrics, num_glyphs } => {
                push_str(&mut out, "hhea numberOfHMetrics ");
                push_dec(&mut out, *number_of_h_metrics as u64);
                push_str(&mut out, " exceeds maxp numGlyphs ");
                push_dec(&mut out, *num_glyphs as u64);
            },
        }
        assert(out@ =~= error_message(*self));
        out
    }
}

} // verus!
