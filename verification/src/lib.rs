use vstd::prelude::*;

pub mod ants_system;
pub mod grading;
pub mod matrix;
pub mod rng;
pub mod selection;
pub mod tour;
pub mod weights;

verus! {

} // verus!
