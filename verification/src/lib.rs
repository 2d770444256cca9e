//! WindowSnap's layout engine: configuration model, layout validation,
//! window matching and slot geometry, with their contracts proved by Verus.
use vstd::prelude::*;

pub mod config;
pub mod text;
pub mod geometry;
pub mod hotkey;
pub mod menu;
pub mod windows;

verus! {

} // verus!
