//! Capability-permission data shapes.
//!
//! The host asks the operating system whether screen recording and
//! microphone capture are allowed; these types carry its answers.
//! Probing the system itself is platform work that stays outside the
//! library.

use vstd::prelude::*;

verus! {

/// What the host knows about one capability.
#[derive(Debug, Clone, Copy, PartialEq, Eq, Structural)]
pub enum PermissionState {
    /// The user granted the capability.
    Granted,
    /// The user denied the capability.
    Denied,
    /// The user was never asked.
    NotDetermined,
    /// Policy forbids the capability.
    Restricted,
    /// The platform offers no way to tell.
    Unknown,
}

/// The capability answers, gathered in one record.
#[derive(Debug, Clone, Copy, PartialEq, Eq, Structural)]
pub struct PermissionStatus {
    /// Whether the screen may be recorded.
    pub screen_recording: PermissionState,
    /// Whether the microphone may be captured.
    pub microphone: PermissionState,
}

} // verus!
