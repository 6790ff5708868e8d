use vstd::prelude::*;

pub mod geometry;
pub mod level;
pub mod map;
pub mod timer;
pub mod world;

verus! {

} // verus!
