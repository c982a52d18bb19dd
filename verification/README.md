# tplot

The verified core of a terminal chart engine, written in Verus.

- `src/` is the library: colors and palettes, terminal capability
  detection, the sub-pixel buffer and its drawing primitives, the
  half-block, vertical-block and braille renderers, the Kitty and iTerm2
  inline-image encodings, CSV text columns, column lookup with suggestions,
  table cell rules, Sankey layering, and the integer geometry behind the chart
  layouts. Every executable function carries a contract that Verus proves;
  calls into std, base64, csv and image go through small trusted wrappers
  whose contracts are stated in their doc comments.
- `tests/` runs the library on concrete inputs.
- `app/` holds what Verus does not check: floating-point layouts and
  statistics, JSON input, terminal I/O, and the serde-derived copies of the
  chart description types.
