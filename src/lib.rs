use vstd::prelude::*;

pub mod cpu;
pub mod operating_system;
pub mod text;

verus! {

} // verus!
