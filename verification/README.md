# hearth_engine

The renderer and profiling core of a voxel engine, written in Verus. The
logic in `src/` is verified against its contracts; the few calls into std,
flate2 and wgpu-types go through small wrappers marked
`#[verifier::external_body]`, whose contracts are trusted and say in their
doc comments what they claim of the outside code.

- `src/` — the verified library: chunk meshing (greedy and per-face), mesh
  buffers and pools, mesh compression, GPU limit and tier selection, adapter
  choice, recovery decisions, diagnostics reports, instance buffers and
  streaming, the texture atlas packer, the mesh cache, draw planning, chunk
  mesh bookkeeping and the allocation, memory and cache profilers.
- `app/` — what stays outside the verifier: wgpu devices, buffers and
  textures, adapter and device requests, logging, and the floating-point
  helpers (vertex packing, normals, levels of detail, UV rectangles).
- `tests/` — tests that run the library on concrete inputs.
