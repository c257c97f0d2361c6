//! A verified core for keeping a directory of workshop addons up to date:
//! which owned addons are stale, how a batch of downloads is scheduled under a
//! fixed concurrency limit, what the batch shows of its progress, and how each
//! finished download is folded into the catalog of owned addons.
//!
//! Nothing here reads a file, opens a connection or asks the user. The
//! program around this library does that, and reports to it what happened.

pub mod binary;
pub mod display;
pub mod download;
pub mod listing;
pub mod menu;
pub mod meta;
pub mod pattern;
pub mod progress;
pub mod reconcile;
pub mod staleness;
pub mod text;
pub mod util;
pub mod workshop;
