# smd_viewer

A WebGL viewer for Valve SMD models, split in two:

- `src/` is the verified library. It reads an SMD document (header, `nodes`,
  `skeleton`, `triangles`, optional `vertexanimation`) byte by byte against a
  grammar stated as spec functions, and gathers the triangles into one mesh
  per texture name, in the order in which the names first appear. Numbers are
  recognised as nom's `float` recognises them and kept as their text. It also
  holds the small decisions of the viewer: texture image paths, the skybox
  face of each image, the draw count of a mesh and the camera steps of held
  keys. Laws over the parse (distinct mesh names, every triangle drawn once,
  mesh sizes, text after a document ignored) are proof functions in
  `mesh_laws.rs` and `extension.rs`.
- `app/` is the browser side: WebGL programs, shaders, image loading, the
  camera and light state in floating point, and the Elm bindings.

`tests/` runs the library on concrete documents.
