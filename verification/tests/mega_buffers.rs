use lunar_render::mega_buffers::{MegaBuffers, MEGA_IBUF_INIT, MEGA_VBUF_INIT};

#[test]
fn first_append_creates_buffers_at_offset_zero() {
    let mut m = MegaBuffers::new();
    assert!(m.entry(7).is_none());
    let plan = m.append(7, 100, 300);
    assert_eq!(plan.new_vbuf_size, Some(MEGA_VBUF_INIT));
    assert_eq!(plan.new_ibuf_size, Some(MEGA_IBUF_INIT));
    assert!(!plan.entries_reset);
    assert_eq!(plan.vertex_offset, 0);
    assert_eq!(plan.index_offset, 0);
    assert_eq!(plan.entry, [0, 300, 0]);
    assert_eq!(m.entry(7), Some([0, 300, 0]));
}

#[test]
fn meshes_are_packed_back_to_back() {
    let mut m = MegaBuffers::new();
    m.append(1, 100, 300);
    let plan = m.append(2, 10, 30);
    assert_eq!(plan.new_vbuf_size, None);
    assert_eq!(plan.new_ibuf_size, None);
    assert_eq!(plan.vertex_offset, 100 * 32);
    assert_eq!(plan.index_offset, 300 * 4);
    assert_eq!(plan.entry, [300, 30, 100]);
    assert_eq!(m.entry(1), Some([0, 300, 0]));
    assert_eq!(m.entry(2), Some([300, 30, 100]));
}

#[test]
fn outgrowing_the_vertex_buffer_doubles_it_and_forgets_meshes() {
    let mut m = MegaBuffers::new();
    m.append(1, 100, 300);
    // 16 MiB / 32 bytes = 524288 vertices fit; ask for more than what is left
    let plan = m.append(2, 524_288, 6);
    assert!(plan.entries_reset);
    assert_eq!(plan.new_vbuf_size, Some(2 * MEGA_VBUF_INIT));
    assert_eq!(plan.new_ibuf_size, None);
    assert_eq!(plan.vertex_offset, 0);
    assert_eq!(plan.index_offset, 0);
    assert_eq!(plan.entry, [0, 6, 0]);
    assert!(m.entry(1).is_none());
    assert_eq!(m.entry(2), Some([0, 6, 0]));
}

#[test]
fn a_huge_mesh_gets_a_buffer_of_its_own_size() {
    let mut m = MegaBuffers::new();
    let plan = m.append(3, 10, 3_000_000);
    // 12 MB of indices exceed twice the 4 MiB initial index buffer
    assert_eq!(plan.new_ibuf_size, Some(12_000_000));
    assert!(plan.entries_reset);
    assert_eq!(plan.entry, [0, 3_000_000, 0]);
}
