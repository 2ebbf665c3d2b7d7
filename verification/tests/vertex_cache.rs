use lunar_render::vertex_cache::{TriangleOrder, CACHE_SIZE};

#[test]
fn vertex_cache_counts_triangles_per_vertex() {
    let order = TriangleOrder::new(&[0, 1, 2, 2, 1, 3], 4);
    assert_eq!(order.triangle_count(), 2);
    assert_eq!(order.unemitted_triangles_at(0), 1);
    assert_eq!(order.unemitted_triangles_at(1), 2);
    assert_eq!(order.unemitted_triangles_at(2), 2);
    assert_eq!(order.unemitted_triangles_at(3), 1);
    assert_eq!(order.cache_position(0), CACHE_SIZE);
    assert_eq!(order.emitted_len(), 0);
    assert_eq!(order.corners_of(1), (2, 1, 3));
}

#[test]
fn vertex_cache_emit_puts_corners_on_top() {
    let mut order = TriangleOrder::new(&[0, 1, 2, 2, 1, 3], 4);
    let (t, verts, tris) = order.emit(0);
    assert_eq!(t, 0);
    assert_eq!(verts, vec![0, 1, 2]);
    assert_eq!(tris, vec![1]);
    assert!(order.is_emitted(0));
    assert!(!order.is_emitted(1));
    assert_eq!(order.cache_position(0), 0);
    assert_eq!(order.cache_position(1), 1);
    assert_eq!(order.cache_position(2), 2);
    assert_eq!(order.cache_position(3), CACHE_SIZE);
    assert_eq!(order.unemitted_triangles_at(1), 1);
    assert_eq!(order.unemitted_triangles_at(0), 0);

    let (t, verts, tris) = order.emit(1);
    assert_eq!(t, 1);
    assert_eq!(verts, vec![0, 1, 2, 3]);
    assert!(tris.is_empty());
    assert_eq!(order.cache_position(2), 0);
    assert_eq!(order.cache_position(1), 1);
    assert_eq!(order.cache_position(3), 2);
    assert_eq!(order.cache_position(0), 3);
    assert_eq!(order.emitted_len(), 6);
    assert_eq!(order.into_indices(), vec![0, 1, 2, 2, 1, 3]);
}

#[test]
fn vertex_cache_drops_the_oldest_past_its_size() {
    let indices: Vec<u32> = (0..36).collect();
    let mut order = TriangleOrder::new(&indices, 36);
    for t in 0..12 {
        order.emit(t);
    }
    assert_eq!(order.cache_position(33), 0);
    assert_eq!(order.cache_position(35), 2);
    assert_eq!(order.cache_position(30), 3);
    assert_eq!(order.cache_position(3), 30);
    assert_eq!(order.cache_position(4), 31);
    assert_eq!(order.cache_position(5), CACHE_SIZE);
    assert_eq!(order.cache_position(0), CACHE_SIZE);
    assert_eq!(order.into_indices(), indices);
}

#[test]
fn vertex_cache_degenerate_triangle_repeats_in_cache() {
    let mut order = TriangleOrder::new(&[5, 5, 6], 7);
    let (t, verts, tris) = order.emit(0);
    assert_eq!(t, 0);
    assert_eq!(verts, vec![5, 6]);
    assert!(tris.is_empty());
    assert_eq!(order.cache_position(5), 0);
    assert_eq!(order.cache_position(6), 2);
    assert_eq!(order.unemitted_triangles_at(5), 0);
}

#[test]
fn vertex_cache_reorders_whole_triangles() {
    let indices = [0, 1, 2, 3, 4, 5, 1, 2, 3, 9];
    let mut order = TriangleOrder::new(&indices, 6);
    for t in [2, 0, 1] {
        let (_, _, tris) = order.emit(t);
        assert!(tris.iter().all(|&x| !order.is_emitted(x as usize)));
    }
    assert_eq!(order.into_indices(), vec![1, 2, 3, 0, 1, 2, 3, 4, 5, 9]);
}

#[test]
fn vertex_cache_pick_of_emitted_triangle_takes_first_left() {
    let mut order = TriangleOrder::new(&[0, 1, 2, 3, 4, 5, 6, 7, 8, 1, 2], 9);
    assert_eq!(order.emit(1).0, 1);
    assert_eq!(order.emit(1).0, 0);
    assert_eq!(order.emit(7).0, 2);
    assert_eq!(order.into_indices(), vec![3, 4, 5, 0, 1, 2, 6, 7, 8, 1, 2]);
}
