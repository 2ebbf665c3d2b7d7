# lunar_render

The decision-making core of the Lunar 2D and 3D renderers, written in Verus
with its behaviour stated in contracts and proved.

## Layout

- `src/render_graph.rs` — pass dependency graph; Kahn scheduling with a
  registration-order fallback for cycles; laws on texture handles and on
  schedules.
- `src/frame_graph.rs` — the render graph of a 3D frame for a tier and the
  enabled effects, and the proof that it always admits a dependency-respecting
  order.
- `src/quality.rs`, `src/adaptive.rs`, `src/frame_features.rs` — render tiers,
  quality presets and settings, developer ceilings, adaptive preset stepping,
  and the per-frame feature gates.
- `src/sizing.rs`, `src/bloom.rs`, `src/hzb.rs`, `src/mega_buffers.rs`,
  `src/terrain.rs`, `src/draw_list.rs` — GPU resource sizing, the bloom and
  depth-pyramid mip chains, placement in the shared vertex/index buffers,
  clipmap patch indices, draw-list choices.
- `src/vertex_cache.rs` — the bookkeeping of the vertex-cache triangle
  reordering: the 32-entry cache, emitted triangles, and what to rescore.
- `src/lightmap_atlas.rs`, `src/texture_upload.rs`, `src/clusters.rs` —
  packing lightmaps into one atlas, the upload layout of texture assets, and
  the point-light cluster table.
- `src/engine_setup.rs`, `src/lights.rs`, `src/draw_order.rs`,
  `src/instancing.rs` — device features and tier setup, point-light shadow
  slots, opaque/transparent draw order, and instanced draw runs.
- `src/batching.rs`, `src/glyph_shelf.rs`, `src/layout_cache.rs`,
  `src/render_config.rs` — 2D draw batching, glyph atlas packing, the text
  layout cache, and 2D configuration.
- `src/fx.rs` — the contracts given to the Fx-hashed collections of
  `rustc-hash` that the library uses.
- `app/lib.rs` — host code: adapter queries (wgpu), glyph rasterization and
  text shaping (cosmic-text), and the floating-point parts (resolution scale,
  cascade splits, vertex-cache scores, camera shake and follow, glyph quad
  positions).
