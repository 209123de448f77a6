use vstd::prelude::*;

pub mod raft;
pub mod store;
pub mod utils;

verus! {

} // verus!
