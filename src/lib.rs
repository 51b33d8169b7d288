//! An order-preserving parallel map, whose tagging, worker step and
//! reassembly of results are verified here, and a singly linked list.
use vstd::prelude::*;

pub mod linked_list;
pub mod parallel_map;

verus! {

} // verus!
