//! Storage-location data shape.
//!
//! The host resolves where configuration and data files live; this
//! type carries the resolved paths for display.  Touching the file
//! system stays outside the library.

use vstd::prelude::*;

verus! {

/// The resolved locations of the host's data folders.
#[derive(Debug, Clone)]
pub struct DataPaths {
    /// Root of the user's data folder.
    pub data_folder: String,
    /// Path of the configuration file.
    pub config_file: String,
    /// Folder for conversation notes.
    pub brain_dir: String,
    /// Folder for plugins.
    pub plugins_dir: String,
    /// Folder for captured images.
    pub captures_dir: String,
    /// Folder for logs.
    pub logs_dir: String,
    /// The folder used when none is configured.
    pub default_folder: String,
}

} // verus!
