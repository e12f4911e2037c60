# tes3map

A map viewer for Morrowind (TES3) plugins. The library in `src/` holds the
map's logic, verified with Verus:

- `dimensions`: the shown rectangle of cells and its canvas coordinates;
- `raster`: laying per-cell vertex grids (heights, vertex colours) out as one
  image, and reading heights back;
- `landscape`: composing the textured landscape image, the storage order of
  texture tiles, and deciding which textures to load and at what size;
- `images`: picking a texture file's decoder from its extension, decoding
  its bytes into a texture, and resizing textures (the `image` crate does
  the decoding and resampling);
- `selection`: selecting cells by clicking (plain, ctrl and shift clicks);
- `conflicts`, `travel`: what loading plugins yields for the conflict and
  travel overlays;
- `overlays`, `text`, `color`, `settings`, `plugins`, `editor`, `errors`,
  `lookup`: the remaining overlays, labels, colours, settings, the plugin
  list, the route editor's rules and keyed lookups.

`app/` is the egui program around it: reading plugins and texture files, floating
point colour and geometry, and the user interface.
