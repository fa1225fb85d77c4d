use vstd::prelude::*;

pub mod dto;
pub mod pool;
pub mod scan;
pub mod tags;

verus! {

} // verus!
