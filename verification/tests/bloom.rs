use lunar_render::bloom::{bloom_mip_sizes, bloom_step_sources};

#[test]
fn mip_chain_halves_down_to_one_pixel() {
    assert_eq!(
        bloom_mip_sizes(1920, 1080, 5),
        vec![(960, 540), (480, 270), (240, 135), (120, 67), (60, 33)]
    );
    assert_eq!(bloom_mip_sizes(1, 3, 3), vec![(1, 1), (1, 1), (1, 1)]);
    assert_eq!(bloom_mip_sizes(64, 64, 0).len(), 1);
    assert_eq!(bloom_mip_sizes(4096, 4096, 12).len(), 7);
}

#[test]
fn step_sources_walk_down_then_up() {
    let sizes = bloom_mip_sizes(800, 600, 3);
    assert_eq!(sizes, vec![(400, 300), (200, 150), (100, 75)]);
    // 2n - 1 = 5 steps: surface, mip0, mip1, then upsample sources mip2, mip1
    assert_eq!(
        bloom_step_sources(800, 600, &sizes),
        vec![(800, 600), (400, 300), (200, 150), (100, 75), (200, 150)]
    );
    let sizes = bloom_mip_sizes(800, 600, 7);
    assert_eq!(bloom_step_sources(800, 600, &sizes).len(), 7);
    let one = bloom_mip_sizes(800, 600, 1);
    assert_eq!(bloom_step_sources(800, 600, &one), vec![(800, 600)]);
}
