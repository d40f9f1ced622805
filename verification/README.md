# graphtropy

An interactive viewer for the entropy of binary files: a graph of Shannon
entropy, chi-squared uniformity or distinct-byte ratio over the file, beside
a hex view, with colour themes and PNG export.

## Layout

- `src/` is the verified library, checked by Verus:
  - `text.rs`: rendering numbers in decimal and hex, reading unsigned
    numbers as `from_str_radix` does, Unicode whitespace trimming;
  - `units.rs`: the "go to offset" reader and the size and offset labels,
    including the exact rounding of `{:.1}` on byte counts;
  - `sampling.rs`: adapting block and step sizes to large files, block
    offsets, byte histograms and distinct-byte counts;
  - `hexfmt.rs`: the copy formats of a selection (hex, C, Rust, Python,
    base64, UTF-8);
  - `hexview.rs`: byte classes and cell text, navigation by wheel, keys and
    centring, selection, the rows in view and the search matches in them;
  - `theme.rs`: colours, the built-in themes, reading theme files into
    themes, interface colours;
  - `session.rs`, `options.rs`, `export.rs`: the cursor shared by graph and
    hex view, the status line, the options panel's state, image captions and
    bitmap-font glyph cells.
- `app/` is the program around it: the window, file mapping, the parallel
  computation of the measures (floating point), plotting, PNG rendering and
  theme files on disk.
- `tests/` runs the library on concrete values.
