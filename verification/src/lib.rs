use vstd::prelude::*;

pub mod fx;
pub mod seq_facts;
pub mod render_graph;
pub mod quality;
pub mod adaptive;
pub mod frame_features;
pub mod frame_graph;
pub mod sizing;
pub mod bloom;
pub mod mega_buffers;
pub mod terrain;
pub mod batching;
pub mod glyph_shelf;
pub mod layout_cache;
pub mod render_config;
pub mod draw_list;
pub mod engine_setup;
pub mod lights;
pub mod draw_order;
pub mod instancing;
pub mod hzb;
pub mod vertex_cache;
pub mod lightmap_atlas;
pub mod clusters;
pub mod texture_upload;

verus! {

} // verus!
