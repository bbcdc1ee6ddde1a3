# raytracer

The verified core of a small ray tracer, written in Verus.

`src/` is the library; every function in it is proved against its contract:

- `perlin`: the permutation table of improved Perlin noise (built from a
  shuffled byte permutation), its hash lookups, lattice wrapping, gradients,
  the fade curve and the blend of a lattice cell, generic over the number type.
- `util`: linear interpolation, generic over the number type.
- `csg`: the rules of union, intersection and difference, and the filter that
  keeps the intersections on the surface of a CSG.
- `group`: splitting the children of a group between the two halves of its
  bounding box, given where each child fits.
- `light`: the grid of cells that an area light samples, in order.
- `list_builder`: pairing collected t values with the object they belong to.
- `refraction`: which objects enclose a ray on both sides of a hit.
- `obj`: reading OBJ text (vertices, normals, faces cut into triangle fans,
  named groups) with the errors it reports.
- `text`: the character level operations the OBJ reader needs (trimming,
  splitting, decimal parsing, name order).
- `transformation`: checking the entries of a transformation list.
- `canvas`: pixel storage and plain PPM text.
- `shapes`: the parameterless unit shapes.

`tests/` runs the library, with `f64` where the code is generic.

`app/` is the program around it: argument handling, file I/O, and the
floating point geometry (points, colours, matrices, bounding boxes, ray
intersections with spheres, planes, cubes, cylinders and triangles, the
camera, lights, materials, shading terms, noise values) that the library
leaves to its caller. The program renders an OBJ model given with `--model`,
or else a Perlin noise texture.
