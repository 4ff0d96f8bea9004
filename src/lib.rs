//! Bond inference over molecular structures, and the planning of GPU position-update
//! passes over them.
//!
//! Positions are fixed-point integers (see `geometry::FIXED_SCALE`), so that every
//! distance test is exact.
use vstd::prelude::*;

pub mod bonds;
pub mod builder;
pub mod compute;
pub mod error;
pub mod geometry;
pub mod paths;
pub mod pdb;
pub mod reference;
pub mod structure;
pub mod text;

verus! {

} // verus!
