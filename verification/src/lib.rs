//! Verified core of a video scene-segmentation pipeline.
//!
//! A source video is probed for container metadata, run through a scene
//! detector whose diagnostic text yields boundary timestamps, and the
//! boundaries are materialized into an ordered timeline of scenes owned by a
//! job. The timeline supports a metadata-only virtual cut, a per-scene
//! physical split plan, and an atomic full replacement by a client edit.
//!
//! All times are modeled in integer milliseconds; frame rates as exact
//! rationals. The external media tools and the process/file plumbing around
//! them live outside this crate and exchange plain values with it.

pub mod cut;
pub mod detector;
pub mod ids;
pub mod ingest;
pub mod logging;
pub mod probe;
pub mod segment;
pub mod store;
pub mod timecode;

use vstd::prelude::*;

verus! {

/// Upper bound on any time value this library works with, in milliseconds
/// (a bit over 31 years). Keeps derived arithmetic such as frame counts
/// within machine integer ranges.
pub const MAX_TIME_MS: u64 = 1_000_000_000_000;

} // verus!
