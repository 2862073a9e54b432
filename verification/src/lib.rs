//! Verified core of the Arca / Lantern file managers: path and URI handling,
//! freedesktop (XDG) formats, listings, history, chooser validation and caches.
use vstd::prelude::*;

pub mod arca_core;
pub mod engine;
pub mod lantern;
pub mod naming;
pub mod text;
pub mod ui;
pub mod xdg;

verus! {
} // verus!
