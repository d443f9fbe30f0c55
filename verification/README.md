# mev_graphics_tutorial

The software-rendering half of a computer graphics tutorial, written in Verus:
a pixel buffer, shapes and triangles drawn on it, barycentric coloring, texel
lookup, PPM output and a Wavefront OBJ loader, each function with a contract
and the library's laws proved.

Layout:

- `src/geometry`: points, lines and triangles; the winding number of a row
  segment against a triangle's edges, computed exactly with integers; the
  signed areas that barycentric coordinates are made of.
- `src/software_buffer`: the buffer and its pixel operations, rectangles and
  circles, triangles drawn through pixel commands (fill, invert, barycentric
  color), texel indices, the PPM text, and the fragments of a model's triangle.
- `src/obj_loader`: the OBJ text format (lines, words, `v/vt/vn` corners,
  integer and floating-point literals) and the model built from it, whose
  numbers are kept as the text that was read.
- `app`: what works on floating-point values (shaders, interpolation, the
  model's vectors through `glam`) and printing to standard output.
- `tests`: the library's tests.
