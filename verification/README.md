# microface

A small UI toolkit for embedded displays: percentage-based layout, flex
stacks, labels and word-wrapped text, and anti-aliased bitmap fonts at 1, 2,
4 or 8 bits per pixel.

The library in `src/` is verified with Verus. It computes what to draw:
widgets and stacks produce drawing commands, font styles produce draw
operations (solid fills, contiguous fills, single pixels), and each public
function states its result exactly over spec functions.

- `src/basis/foundation/screen.rs`: percentages and clamping of a screen size.
- `src/widgets/`: the `Canvas` trait, `HStack`/`VStack` flex layout, `Rect`,
  `Label`, `Text` and the commands they paint.
- `src/element.rs`: the element tree, measured and painted uniformly.
- `src/fonts/`: fonts, styles, blending palettes, glyph drawing, pixel
  packing, atlas composition with tight glyph boxes and kerning tables, and
  the font argument grammar.
- `src/render/bitmap.rs`: an in-memory framebuffer for any color type that
  shows as RGB, and its BMP encoding.
- `src/color.rs`: RGB 5-6-5, RGB 8-8-8, 8-bit gray and black-and-white
  colors and the conversions between them.

`app/` runs the commands on any `embedded-graphics` `DrawTarget`, implements
the `embedded-graphics` text traits for the font style, wraps text with
`embedded-text`, loads TTF/OTF fonts with `fontdue`, and writes BMP files.
