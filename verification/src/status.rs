//! The binary belief a node holds about a transaction.

use vstd::prelude::*;

verus! {

/// A node's opinion of a transaction.
#[derive(Clone, Copy, Debug, PartialEq, Eq, Structural)]
pub enum Status {
    Valid,
    Invalid,
}

impl Status {
    /// The opposite belief.
    pub open spec fn flipped(self) -> Status {
        match self {
            Status::Valid => Status::Invalid,
            Status::Invalid => Status::Valid,
        }
    }

    /// Returns the opposite belief.
    pub fn flip(&self) -> (r: Status)
        ensures
            r == self.flipped(),
            r != *self,
    {
        match self {
            Status::Valid => Status::Invalid,
            Status::Invalid => Status::Valid,
        }
    }
}

} // verus!
