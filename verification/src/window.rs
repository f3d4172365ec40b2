//! Window-placement data shapes.
//!
//! The host persists where its window sat and queries which displays
//! exist; these types carry that data.  Reading or moving real windows
//! is platform work that stays outside the library.

use vstd::prelude::*;

verus! {

/// A window's saved position, size, and mode.
#[derive(Debug, Clone)]
pub struct WindowConfig {
    /// Horizontal position of the window's outer corner, in pixels.
    pub x: i32,
    /// Vertical position of the window's outer corner, in pixels.
    pub y: i32,
    /// Inner width, in pixels.
    pub width: u32,
    /// Inner height, in pixels.
    pub height: u32,
    /// The display the window was on, when known.
    pub display_id: Option<String>,
    /// Whether the window was fullscreen.
    pub is_fullscreen: bool,
    /// Whether the window had no decorations.
    pub is_borderless: bool,
}

impl Default for WindowConfig {
    /// The placement a fresh installation starts with.
    fn default() -> (c: Self)
        ensures
            c.x == 100,
            c.y == 100,
            c.width == 480,
            c.height == 800,
            c.display_id is None,
            !c.is_fullscreen,
            !c.is_borderless,
    {
        WindowConfig {
            x: 100,
            y: 100,
            width: 480,
            height: 800,
            display_id: None,
            is_fullscreen: false,
            is_borderless: false,
        }
    }
}

/// One display the host can place its window on.
#[derive(Debug, Clone)]
pub struct DisplayInfo {
    /// Stable identifier the host assigns to the display.
    pub id: String,
    /// The display's name as the platform reports it.
    pub name: String,
    /// Horizontal position of the display in the virtual desktop.
    pub x: i32,
    /// Vertical position of the display in the virtual desktop.
    pub y: i32,
    /// Width in pixels.
    pub width: u32,
    /// Height in pixels.
    pub height: u32,
    /// Whether this is the primary display.
    pub is_primary: bool,
}

} // verus!
