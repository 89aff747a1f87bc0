# glyph-cell

Glyph-cell text layout for small displays, verified with Verus.

A font is a `FontData`: a string of indexed characters, one `Glyph` record
per character and a packed bitmap at 1, 2, 3, 4 or 8 bits per pixel. Text
is laid out in cells (monospace: generated cell widths; proportional: bitmap
widths), horizontally or vertically, anchored by a 3x3 alignment.

## Layout

- `src/` — the verified library.
  - `geometry`, `font`, `style`, `layout`, `text`, `debug`, `embedded_text`:
    font lookup and sampling, cell layout, drawn and covered pixels, debug
    boxes, and a single-line character style with baselines.
  - `request`: the grammar of a `font_data!` request, over its tokens.
  - `blocks`, `raster`, `emit`, `writer`: font data generation — unique
    characters per block, vertical adjustment, cell placement and clipping of
    rasterized glyphs, bit packing and the generated Rust source.
  - `preview`, `simulator`: the preview simulator — its settings, typed
    vertical tweaks, the prepared preview font and its placement in cells,
    font cache decisions (the ASCII cell width is applied when drawing, not
    cached), frame buffer and example code.
  - `laws`: properties that span several operations.
- `tests/` — tests of the library.
- `app/` — the program around it: `embedded-graphics` adapters, the
  `font_data!` expansion with FreeType and file access, and the simulator
  commands with font discovery.
