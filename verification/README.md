# primitive_engineering

The world core of a voxel game, verified with Verus.

- `src/internal`: grid positions and their iterators, the six directions, voxels (levels in
  fixed point, `1 / 65535` of a full voxel), chunks of 17³ samples, the level-of-detail tree
  of a region (`InWorldChunk`), the edge nodes of a cell used to build meshes, and the
  sampling loop of the world generator.
- `src/plugins`: the world of regions (`GameWorld`) with its conversions between levels of
  detail, the decisions of the chunk systems (loading regions around the player, splitting
  chunks near the player, merging or unloading chunks far from the player, finding the
  chunks that mining reaches), the crafting checks, and the bytes of save files (compressed
  with zstd, read back to what was written).
- `app`: the bevy program around the library: floating-point conversions, saving and
  loading files with bincode, and the systems that act on the library's decisions.
