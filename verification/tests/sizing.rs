use lunar_render::sizing::{
    decode_u32s, grown_vertex_capacity, half_extent, mapped_u32s, needs_resize, next_pow2, occluded_slots, pow2_capacity, slot_offset,
};

#[test]
fn powers_of_two() {
    assert_eq!(next_pow2(0), 1);
    assert_eq!(next_pow2(1), 1);
    assert_eq!(next_pow2(5), 8);
    assert_eq!(next_pow2(64), 64);
    assert_eq!(next_pow2(65), 128);
    assert_eq!(pow2_capacity(3, 256), 256);
    assert_eq!(pow2_capacity(300, 256), 512);
    assert_eq!(pow2_capacity(66, 64), 128);
}

#[test]
fn slots_extents_and_resize() {
    assert_eq!(slot_offset(0), 0);
    assert_eq!(slot_offset(3), 768);
    assert_eq!(half_extent(0), 1);
    assert_eq!(half_extent(1), 1);
    assert_eq!(half_extent(7), 3);
    assert_eq!(half_extent(1920), 960);
    assert!(!needs_resize(800, 600, 0, 600));
    assert!(!needs_resize(800, 600, 800, 0));
    assert!(!needs_resize(800, 600, 800, 600));
    assert!(needs_resize(800, 600, 1024, 600));
}

#[test]
fn vertex_capacity_doubles_and_saturates() {
    assert_eq!(grown_vertex_capacity(65536), 131072);
    assert_eq!(grown_vertex_capacity(0), 0);
    assert_eq!(grown_vertex_capacity(usize::MAX), usize::MAX);
    assert_eq!(grown_vertex_capacity(usize::MAX / 2 + 1), usize::MAX);
}

#[test]
fn mapped_words_in_native_order() {
    let mut bytes = Vec::new();
    bytes.extend_from_slice(&7u32.to_ne_bytes());
    bytes.extend_from_slice(&0xdead_beefu32.to_ne_bytes());
    bytes.push(1);
    assert_eq!(mapped_u32s(&bytes), vec![7, 0xdead_beef]);
    assert!(mapped_u32s(&[1, 2, 3]).is_empty());
}

#[test]
fn occlusion_readback_hides_zero_flags() {
    assert_eq!(occluded_slots(&vec![1, 0, 1, 0, 0], 4), vec![1, 3]);
    assert_eq!(occluded_slots(&vec![0, 0], 5), vec![0, 1]);
    assert!(occluded_slots(&vec![0, 0], 0).is_empty());
}

#[test]
fn mapped_words_share_the_machine_order() {
    let bytes = [1u8, 0, 0, 0, 0, 0, 0, 1, 2, 0, 0, 0];
    let words = mapped_u32s(&bytes);
    let expected: Vec<u32> = bytes.chunks_exact(4).map(|c| u32::from_ne_bytes([c[0], c[1], c[2], c[3]])).collect();
    assert_eq!(words, expected);
}

#[test]
fn decode_words_in_either_order() {
    let bytes = [0x78u8, 0x56, 0x34, 0x12, 1, 0, 0, 0, 9];
    assert_eq!(decode_u32s(&bytes, true), vec![0x1234_5678, 1]);
    assert_eq!(decode_u32s(&bytes, false), vec![0x7856_3412, 0x0100_0000]);
    assert!(decode_u32s(&[1, 2], true).is_empty());
    let v = vec![7u32, 0xdead_beef, 0];
    let ne: Vec<u8> = v.iter().flat_map(|x| x.to_ne_bytes()).collect();
    assert_eq!(mapped_u32s(&ne), v);
}

#[test]
fn capacity_is_next_power_raised_to_floor() {
    assert_eq!(pow2_capacity(300, 400), 512);
    assert_eq!(pow2_capacity(0, 0), 1);
    assert_eq!(pow2_capacity(200, 256), 256);
    assert_eq!(pow2_capacity(3, 0), 4);
}
