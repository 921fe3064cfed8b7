# strict_font_metrics

Reads vertical metrics (`head`, `hhea`, `OS/2`) and per-glyph advance widths
(`hhea`, `maxp`, `hmtx`) out of sfnt-based fonts, strictly by default and
leniently on request, verified with Verus.

- `src/format.rs`: the byte layout as spec functions of the input bytes
  (`directory_spec`, `checksum_spec`, `head_spec`, `hhea_spec`, `os2_spec`,
  `hmtx_spec`, and `parse_spec` / `advance_widths_spec` built from them).
- `src/lib.rs`: `parse`, `advance_widths` and their helpers, each proved to
  return exactly what its spec function gives, errors included.
- `src/reader.rs`: the bounds-checked big-endian cursor.
- `src/checksum.rs`: the wrapping table checksum.
- `src/error.rs`: the error type, its `message` (decimal and hex rendering
  proved against `error_message`) and `tag_str`.
- `src/laws.rs`: properties of the whole parser (lenient parsing only turns
  checks off; strict success means every check passed; one width per glyph;
  zero padding does not change a checksum).
- `app/lib.rs`: a copy of the error type whose `Display` prints `message`.
