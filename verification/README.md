# collada

Reads COLLADA documents: their animations, their skins and skeletons, and their
meshes.

The library under `src/` is verified with Verus. A document is a tree of XML
elements (`element.rs`, read by the `xml` crate through `xml_tree.rs`) together
with the readings of its numerals (`number.rs`). What is read from it is stated
by functions on plain values: `animation.rs`, `binding.rs`, `skeleton.rs`,
`shapes.rs` and `mesh.rs` each hold these and the code that meets them. The
modules under `laws/` prove what holds across functions.

Real numbers are carried as the bit patterns of their values in single and in
double precision. Reading files and numerals is left to `app/`, which also gives
the results with real numbers in them.
