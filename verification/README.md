# pptx_editor_engine

The text, colour and bitmap logic of a slide renderer for a PPTX editor,
written in Verus and proved against its contracts.

- `src/` is the verified library. Each public function states its result
  exactly over spec functions on sequences and integers; public proof
  functions state the laws that span several calls (splitting and joining
  paragraphs, colour round trips, wrap units covering the text, the line
  breaker's lines covering the text, clipping against drawn height, the
  nesting of the vertical character classes, the sorted font list).
  - `text_box`: fit, anchor, overflow and clip decisions of a text box.
  - `paragraph`, `wrap_units`, `explicit_wrap`, `vertical_tokens`:
    paragraph splitting, wrap units, the line-breaking state machine and the
    tokens of vertical text.
  - `text_class`: East Asian, vertical-layout and punctuation classes.
  - `color_syntax`: `#rrggbb` and `rgba(...)` colour text.
  - `bitmap`: ink bounds, the reflection blur, pixel addressing and the
    quarter turn of sideways runs.
  - `shape_style`, `font_catalog`, `ast`, `char_seq`: shape kinds and dash
    patterns, the font family list, defaults, and character helpers.
- `app/` is ordinary Rust around it: the WebAssembly canvas renderer (text
  layout and rasterisation with cosmic-text, floating-point geometry, canvas
  calls) and the font HTTP service. It calls the library for every decision
  above.
- `tests/` runs the library on concrete values.
