use lunar_render::render_config::{Layer, RenderConfig, BACKGROUND, FOREGROUND, GAME, UI};

#[test]
fn default_render_config() {
    let c = RenderConfig::default();
    assert_eq!((c.width, c.height, c.vsync, c.frame_cap), (1280, 720, true, 0));
}

#[test]
fn layers_order_draws() {
    assert!(Layer(BACKGROUND) < Layer(GAME));
    assert!(Layer(GAME) < Layer(FOREGROUND));
    assert!(Layer(FOREGROUND) < Layer(UI));
}
