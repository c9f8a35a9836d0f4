//! The priorities by which subscribers of the event bus are ordered.

use vstd::prelude::*;

verus! {

/// How early a subscriber runs. Lower ranks run first.
#[derive(Debug, Clone, Copy, PartialEq, Eq, PartialOrd, Ord, Hash, Structural)]
pub enum Priority {
    Critical,
    High,
    Normal,
    Low,
}

impl Priority {
    /// The rank of the priority: 0, 10, 50 or 100.
    pub open spec fn spec_rank(self) -> i32 {
        match self {
            Priority::Critical => 0,
            Priority::High => 10,
            Priority::Normal => 50,
            Priority::Low => 100,
        }
    }

    /// The rank of the priority: 0, 10, 50 or 100.
    #[verifier::when_used_as_spec(spec_rank)]
    pub fn rank(self) -> (r: i32)
        ensures
            r == self.spec_rank(),
    {
        match self {
            Priority::Critical => 0,
            Priority::High => 10,
            Priority::Normal => 50,
            Priority::Low => 100,
        }
    }
}

impl Default for Priority {
    fn default() -> (r: Self)
        ensures
            r == Priority::Normal,
    {
        Priority::Normal
    }
}

} // verus!
