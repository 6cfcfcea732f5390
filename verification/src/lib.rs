//! A geometry operation framework for a GIS viewer: a closed model
//! of geometry trees, a capability mask over the seven geometry
//! kinds, a registry of operations, a dispatching traversal, and a
//! tolerance-based simplification operation driven through an
//! interactive preview-then-commit lifecycle.  Coordinates are held
//! in fixed-point units (thousandths), so every algorithm here is
//! exact integer arithmetic.

use vstd::prelude::*;

pub mod catalog;
pub mod geom;
pub mod network;
pub mod kind;
pub mod ops;
pub mod params;
pub mod rdp;

verus! {

} // verus!
