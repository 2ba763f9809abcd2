# particles

The verified core of a real-time GPU particle simulation (quarks and electrons
forming hadrons and nuclei) and of the immediate-mode GUI drawn over it.

- `src/` is the library, written in Verus: every function carries a contract
  and is proved against it. It holds the parts of the program that decide and
  compute on integers, bytes and strings: particle kind and colour-charge
  codes, compute workgroup counts, GPU picking decode and read-back geometry,
  the shelf-packing glyph atlas, glyph keys, the procedural debug font,
  draw-call batching and buffer growth, text-field editing over UTF-8 bytes,
  widget event routing, mouse-button state and the stats overlay controls.
- `app/` is ordinary Rust around it: winit event conversion, the particles'
  GPU layouts, constants and forces, the orbiting camera, and the
  floating-point GUI core
  (node layout, styles and transitions, hit testing, clipping, tessellation,
  widget builders, clip rectangles, UV normalisation, overlay text), which
  calls the library for ids, alignment, routing, editing and batching.
- `tests/` exercises the library on concrete inputs.
