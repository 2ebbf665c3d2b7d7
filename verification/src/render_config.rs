//! Window and frame-rate configuration of the 2D renderer, and the render
//! layers that order its draws.
use vstd::prelude::*;

verus! {

/// Rendering configuration: window size, vsync and frame rate limiting.
#[derive(Debug, Clone, Copy, PartialEq, Eq, Structural)]
pub struct RenderConfig {
    /// Window width.
    pub width: u32,
    /// Window height.
    pub height: u32,
    /// Vsync enabled.
    pub vsync: bool,
    /// Target frame cap (0 = uncapped).
    pub frame_cap: u32,
}

impl Default for RenderConfig {
    /// A 1280x720 window with vsync and no frame cap.
    fn default() -> (c: Self)
        ensures
            c == (RenderConfig { width: 1280, height: 720, vsync: true, frame_cap: 0 }),
    {
        RenderConfig { width: 1280, height: 720, vsync: true, frame_cap: 0 }
    }
}

/// Render layer of an entity: higher layers are drawn on top of lower ones.
#[derive(Debug, Clone, Copy, PartialEq, Eq, PartialOrd, Ord, Hash, Structural)]
pub struct Layer(pub i32);

/// Static backgrounds and parallax layers.
pub const BACKGROUND: i32 = 0;

/// Game objects, characters, projectiles.
pub const GAME: i32 = 100;

/// Effects, overlays, weather.
pub const FOREGROUND: i32 = 200;

/// HUD, menus, dialogue boxes.
pub const UI: i32 = 300;

} // verus!
