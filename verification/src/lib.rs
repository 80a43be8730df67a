//! Verified core of a frame-rate patch for a game client: binary patch
//! patterns and their integrity hashes, code patches, frame-rate limiters
//! and frame timing, feature flags, configuration parsing, game version
//! recognition, and the tracking of unit positions between game updates.
use vstd::prelude::*;

pub mod bin_patch;
pub mod code;
pub mod config;
pub mod features;
pub mod frame;
pub mod limiter;
pub mod motion;
pub mod control;
pub mod patch;
pub mod pattern;
pub mod text;
pub mod tracker;
pub mod util;
pub mod version;
pub mod window;

verus! {

} // verus!
