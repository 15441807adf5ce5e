//! Where resources are kept.
use vstd::prelude::*;

verus! {

/// A place that keeps resources.
pub trait Repository {

}

/// A repository that lives in memory.
#[derive(Clone, Copy, Debug, PartialEq, Eq, Structural)]
pub struct MemoryRepository {}

impl MemoryRepository {
    /// An empty repository.
    pub fn new() -> (r: MemoryRepository)
        ensures
            r == (MemoryRepository {  }),
    {
        MemoryRepository {  }
    }
}

impl Repository for MemoryRepository {

}

} // verus!
