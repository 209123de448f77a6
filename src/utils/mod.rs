use vstd::prelude::*;

pub mod u8vec;

verus! {

} // verus!
