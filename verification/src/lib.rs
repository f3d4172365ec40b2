//! A foreground-activity time-accounting engine.
//!
//! The ledger records how many seconds the user has spent in each
//! foreground application, aggregated per day and across all time.  A
//! periodic caller samples the currently focused application; the ledger
//! converts the irregular sampling intervals into clamped elapsed-time
//! credits, detects day boundaries, and archives completed days.  A
//! read-only reporter projects the ledger into ranked usage summaries.

pub mod app_map;
pub mod capture;
pub mod day_archive;
pub mod ledger;
pub mod permissions;
pub mod report;
pub mod storage;
pub mod window;
