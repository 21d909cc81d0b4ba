//! A two-dimensional soft-body physics engine based on extended
//! position-based dynamics, with all scalar quantities carried as
//! fixed-point integers so that every step of the solver is verified.

use vstd::prelude::*;

pub mod constraint;
pub mod constraint_group;
pub mod controller_message;
pub mod face;
pub mod fixed;
pub mod laws;
pub mod particle;
pub mod particle_group;
pub mod physical_model;
pub mod posbox;
pub mod pr_model;
pub mod pworld;
pub mod render_model;
pub mod texture_indexer;
pub mod vec2;

verus! {

} // verus!
