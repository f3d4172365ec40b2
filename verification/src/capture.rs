//! Screen-enumeration data shape.
//!
//! The host lists the screens it could capture; this type carries one
//! screen's description.  Capturing and encoding images is pipeline
//! work that stays outside the library.

use vstd::prelude::*;

verus! {

/// One screen available for capture.
#[derive(Debug, Clone)]
pub struct ScreenCaptureInfo {
    /// Position of the screen in the host's list.
    pub index: usize,
    /// Display name the host shows for it.
    pub name: String,
    /// Width in pixels.
    pub width: u32,
    /// Height in pixels.
    pub height: u32,
    /// Whether this is the primary screen.
    pub is_primary: bool,
}

} // verus!
