use lunar_render::batching::{
    draw_bind_key, plan_frame, Batch, DrawClass, DrawItem, GLYPH_ATLAS_BIND_ID, UNTEXTURED_BIND_ID,
};

fn item(layer: i32, class: DrawClass) -> DrawItem {
    DrawItem { layer, class }
}

#[test]
fn bind_keys() {
    assert_eq!(draw_bind_key(DrawClass::Sprite(Some(5))), 5);
    assert_eq!(draw_bind_key(DrawClass::Sprite(Some(1 << 40))), UNTEXTURED_BIND_ID);
    assert_eq!(draw_bind_key(DrawClass::Sprite(None)), UNTEXTURED_BIND_ID);
    assert_eq!(draw_bind_key(DrawClass::Rect), UNTEXTURED_BIND_ID);
    assert_eq!(draw_bind_key(DrawClass::Text(3)), GLYPH_ATLAS_BIND_ID);
}

#[test]
fn sorted_by_layer_then_texture_and_batched() {
    let items = vec![
        item(1, DrawClass::Sprite(Some(2))),
        item(0, DrawClass::Rect),
        item(1, DrawClass::Sprite(Some(1))),
        item(1, DrawClass::Sprite(Some(2))),
        item(0, DrawClass::Sprite(Some(9))),
    ];
    let plan = plan_frame(&items, 1000);
    assert_eq!(plan.order, vec![4, 1, 2, 0, 3]);
    assert_eq!(plan.drawn, 5);
    assert!(!plan.overflow);
    assert_eq!(plan.sprite_count, 4);
    assert_eq!(plan.vertex_end, 30);
    assert_eq!(
        plan.batches,
        vec![
            Batch { layer: 0, texture: 9, first_vertex: 0, vertex_count: 6 },
            Batch { layer: 0, texture: UNTEXTURED_BIND_ID, first_vertex: 6, vertex_count: 6 },
            Batch { layer: 1, texture: 1, first_vertex: 12, vertex_count: 6 },
            Batch { layer: 1, texture: 2, first_vertex: 18, vertex_count: 12 },
        ]
    );
}

#[test]
fn overflow_drops_the_rest_of_the_frame() {
    let items = vec![item(0, DrawClass::Rect), item(0, DrawClass::Line(true)), item(1, DrawClass::Rect)];
    let plan = plan_frame(&items, 12);
    assert!(plan.overflow);
    assert_eq!(plan.drawn, 2);
    assert_eq!(plan.vertex_end, 12);
    assert_eq!(plan.batches, vec![Batch { layer: 0, texture: UNTEXTURED_BIND_ID, first_vertex: 0, vertex_count: 12 }]);
}

#[test]
fn text_and_untextured_sprites() {
    let items = vec![item(3, DrawClass::Text(4)), item(3, DrawClass::Sprite(None))];
    let plan = plan_frame(&items, 100);
    assert_eq!(plan.sprite_count, 0);
    assert_eq!(plan.vertex_end, 24);
    assert_eq!(plan.batches, vec![Batch { layer: 3, texture: GLYPH_ATLAS_BIND_ID, first_vertex: 0, vertex_count: 24 }]);
}

#[test]
fn empty_frame_draws_nothing() {
    let plan = plan_frame(&Vec::new(), 100);
    assert!(plan.order.is_empty() && plan.batches.is_empty());
    assert!(!plan.overflow);
    assert_eq!(plan.vertex_end, 0);
}

#[test]
fn too_short_line_writes_no_vertices() {
    let items = vec![item(0, DrawClass::Line(false)), item(0, DrawClass::Line(true)), item(0, DrawClass::Line(false))];
    let plan = plan_frame(&items, 100);
    assert_eq!(plan.drawn, 3);
    assert_eq!(plan.vertex_end, 6);
    assert_eq!(plan.batches, vec![Batch { layer: 0, texture: UNTEXTURED_BIND_ID, first_vertex: 0, vertex_count: 6 }]);
    let lone = plan_frame(&vec![item(2, DrawClass::Line(false))], 100);
    assert!(lone.batches.is_empty());
    assert_eq!(lone.vertex_end, 0);
}
