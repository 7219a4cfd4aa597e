//! Verified core of a static map renderer and tile proxy.
use vstd::prelude::*;

pub mod config;
pub mod grid;
pub mod json;
pub mod laws;
pub mod markers;
pub mod overlays;
pub mod query;
pub mod raster;
pub mod reply;
pub mod style;
pub mod templates;
pub mod text;
pub mod tiles;

verus! {
}
