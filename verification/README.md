# voxel_world

A voxel world: chunks of 16 x 16 x 16 blocks generated from noise, decorated with trees,
bushes and logs, meshed and shown around the player.

`src/` is the verified library:

- `coords`: arithmetic on integer triples.
- `world_structure`: trees, bushes and logs as lists of blocks.
- `chunk`, `chunk_map`, `point_set`, `chunk_table`: chunks and the table that holds them,
  with reads of blocks across chunk borders and the set of rendered chunks.
- `world_generator`: terrain, structure placement, face masks and ambient-occlusion masks;
  `rings` and `block_types` hold what generation keeps true of the chunk table, `masks`
  the meaning of the mask bits.
- `greedy`: the greedy mesher that merges the visible faces of a layer into rectangles.
- `cube_mesh`, `rect_mesh`: the vertex data of block and rectangle meshes.
- `rendering`, `chunk_loader`: scanning the chunks around the player and spawning them.
- `controls`: pausing and switching the camera mode.
- `random`, `perlin`: the calls into `rand` and `noise`.

`app/` is the Bevy game around it: windowing, input, physics, floating-point noise and
the conversion of the mesh data into Bevy meshes.
