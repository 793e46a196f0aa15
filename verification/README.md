# prototype_voxel_template

The verified core of a small voxel game prototype (rolling terrain, greedy
chunk meshing with ambient occlusion, chunk colliders, a first-person
player).

`src/` is the library, every function of it proved by Verus against its
contract:

- `ambient_occlusion`: per-vertex AO levels, the 256-entry ring lookup table,
  and `FaceAoSampler`, which samples a face's eight ring neighbours through
  precomputed linear offsets. Proved: the table matches the vertex formula,
  and offset-based sampling reads the same voxels as sampling by coordinates.
- `face`: cube faces in block_mesh's `{N, U, V}` convention; block_mesh is
  called for the face normal and quad corners.
- `terrain_meshing`: the AO of a quad's face, material lookup with a per-mesh
  cache, nearest-neighbour resampling of a voxel array, the mesh layout of a
  chunk.
- `chunk_colliders`: a least-recently-used collider cache (proved: inserts
  are kept, capacity is respected, the least recently used entry is the one
  evicted) and the voxel coordinates a chunk collider is built from.
- `terrain`, `terrain_noise`: terrain columns and the material of every
  voxel; chunks that need no noise.
- `player`, `app_controls`: sprinting, the held-jump filter, the chunks to
  remesh after an edit, cursor locking.
- `grid`, `shape`, `voxel`: coordinate boxes, array layout (through ndshape),
  voxel states.

`app/` is the Bevy program around it: plugins, systems, rendering, physics,
noise sampling and everything else that works in `f32`.
