# ray_tracer

A path tracer after *Ray Tracing in One Weekend* and its sequel, split in two.

`src/` is the verified library: the integer and byte logic of the renderer,
each function with a contract proved by Verus.

- `scene`: the sample scenes, the world and render settings each one uses,
  and the command-line names that select them.
- `utilities::color`: plain PPM encoding (header, pixel lines, whole files)
  over a decimal encoder proved to read back to its number.
- `utilities::image`: texture images stored bottom row first, and texel
  sampling clamped to the image.
- `utilities::perlin`: the shuffled permutation tables of Perlin noise and
  the lattice gradient indices they give.
- `utilities::random`: the one call into `fastrand` the library makes.
- `optical::camera`: the order in which pixels are rendered and written.
- `optical::texture`: checkerboard cell parity.
- `hittable::bvh`: how a bounding volume hierarchy node divides its objects.

`app/` is the program around it: vectors, rays, intersections, materials,
textures and the camera are floating point and stay there, as do file
output, image decoding (`image`) and parallel rendering (`rayon`).
Run it with a scene name (`bounding`, `checker`, `earth`, `perlin`, `quads`,
`light`, `cornell`, `smoke`, `final`, `hq`); it writes `./data/out.ppm`.
