use lunar_render::frame_graph::build_render_graph;
use lunar_render::quality::RenderTier;
use lunar_render::render_graph::{PassId, RenderGraph};

fn names(graph: &RenderGraph) -> Vec<String> {
    (0..graph.pass_count()).map(|i| graph.pass_name(PassId(i as u32)).to_string()).collect()
}

fn sorted_names(graph: &mut RenderGraph) -> Vec<String> {
    let order = graph.sorted_pass_ids().to_vec();
    order.iter().map(|&id| graph.pass_name(id).to_string()).collect()
}

fn pos(order: &[String], name: &str) -> usize {
    order.iter().position(|n| n == name).expect("pass missing")
}

#[test]
fn full_high_tier_graph_registers_every_pass() {
    let g = build_render_graph(RenderTier::High, true, true, true, false, true, true);
    assert_eq!(
        names(&g),
        vec![
            "shadow", "zprepass", "gtao", "hzb_build", "hzb_cull", "opaque", "sky", "particles", "decals", "water",
            "transparent", "ssr", "volumetric_fog", "bloom", "composite", "staa",
        ]
    );
}

#[test]
fn low_tier_graph_is_minimal() {
    let g = build_render_graph(RenderTier::LowGles, false, false, false, false, false, false);
    assert_eq!(
        names(&g),
        vec!["shadow", "opaque", "sky", "particles", "decals", "water", "transparent", "composite", "present"]
    );
    let g = build_render_graph(RenderTier::Mid, false, false, false, true, false, false);
    assert_eq!(names(&g).last().map(String::as_str), Some("fxaa"));
    assert!(!names(&g).contains(&"hzb_build".to_string()));
}

#[test]
fn frame_schedule_runs_writers_before_readers() {
    let mut g = build_render_graph(RenderTier::High, true, true, true, false, true, true);
    let order = sorted_names(&mut g);
    assert_eq!(order.len(), 16);
    assert!(pos(&order, "zprepass") < pos(&order, "opaque"));
    assert!(pos(&order, "shadow") < pos(&order, "opaque"));
    assert!(pos(&order, "transparent") < pos(&order, "water"));
    assert!(pos(&order, "opaque") < pos(&order, "water"));
    assert!(pos(&order, "water") < pos(&order, "bloom"));
    assert!(pos(&order, "water") < pos(&order, "ssr"));
    assert!(pos(&order, "gtao") < pos(&order, "composite"));
    assert!(pos(&order, "bloom") < pos(&order, "composite"));
    assert!(pos(&order, "composite") < pos(&order, "staa"));
    // the passes without dependencies come first, in registration order
    assert_eq!(&order[..4], &["shadow", "zprepass", "hzb_cull", "sky"]);
}
