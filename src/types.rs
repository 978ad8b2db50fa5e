//! What a set of cores is acquired for.
use vstd::prelude::*;

verus! {

/// What a set of cores is acquired for.
#[derive(Debug, Clone, Copy, PartialEq, Eq, Hash, Structural)]
pub enum WorkType {
    CapacityCommitment,
    Deal,
}

} // verus!
