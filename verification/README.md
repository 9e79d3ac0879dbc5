# eidos

An animation and data-visualization library that renders scenes of primitives
(circles, rectangles, lines, arrows, text, Bezier paths), 2D plots and 3D surface
plots to SVG frames and encodes them to MP4.

- `src/` is the verified library (Verus): colors and their CSS notation, error
  messages, the configuration checks of scenes, data curves, spline fits, confidence
  bands and surface grids, the painter's-algorithm ordering of depths (sorting by IEEE
  total-order keys, comparing by IEEE comparison keys) and the merge of scatter circles
  into a drawn scene, the topology of surface grids, Catmull-Rom point selection, the
  phase of an animation timeline, the floor corner used for 3D axes, unique arrow
  marker ids, the splitting of multi-line labels, the order of an SVG document's
  nodes and the argument list of the video encoder.
- `app/` is the rendering side in ordinary Rust: floating-point geometry, projection
  (`nalgebra`), tweening (`keyframe`), SVG assembly (`svg`), rasterization (`resvg`,
  `ttf-noto-sans`) and encoding with the `ffmpeg` executable. It calls the library for
  each of the decisions listed above; the floating-point work stays here.
- `tests/` exercises the library.
