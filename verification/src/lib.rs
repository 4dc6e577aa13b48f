//! Verified core of a desktop dock: the item model, desktop-entry matching,
//! configuration rules and small protocol and geometry helpers.
use vstd::prelude::*;

pub mod autohide;
pub mod autostart;
pub mod backend;
pub mod color;
pub mod config;
pub mod desktop;
pub mod icons;
pub mod menu;
pub mod model;
pub mod path;
pub mod perf;
pub mod perf_probe;
pub mod seqs;
pub mod shelf;
pub mod surface_cache;
pub mod text;
pub mod theme_pack;

verus! {
}
