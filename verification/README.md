# gwb

A boundary-representation solid modeler built on the half-edge data
structure, after Mäntylä's Geometric Workbench, written in Verus.

- `src/` is the verified library. `topology::solid` stores a solid's
  vertices, half-edges, edges, loops and faces in slot maps (the `slotmap`
  crate, reached through `topology::solid::storage`); `topology::view`
  gives the mathematical view of a solid (`SolidView`) and what it means
  for one to be well formed; `topology` holds the read and write traits and
  the `Topology` context; `topology::euler` holds the Euler operators, each
  with a contract that says exactly what it does to the view, and the
  proofs that they keep a solid well formed and its Euler count as it
  should be.
- `tests/` runs the library on concrete solids.
- `app/` holds what stays plain Rust: `f64` coordinates, the `point!`
  macro and the split-vertex error as a `std::error::Error`.

Coordinates are stored, never computed with, so a real is kept as the bit
pattern of its `f64` value.
