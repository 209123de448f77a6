use vstd::prelude::*;

pub mod number;

verus! {

} // verus!
