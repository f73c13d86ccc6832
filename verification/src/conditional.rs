//! Numbering the branches of a conditional structure.
//!
//! A conditional with several branches is built as a value of a nested
//! type with two arms: the first arm holds a branch, the second holds
//! what is left of the conditional. So the first branch is the first arm;
//! the second branch is the first arm within one second arm; and so on,
//! down to the last branch, which is all that is left and stands bare
//! within its second arms.

use vstd::prelude::*;

verus! {

/// Where a branch stands in the nested type.
#[derive(Clone, Copy, Debug, PartialEq, Eq)]
pub struct ArmPath {
    /// How many second arms are around the branch.
    pub depth: usize,
    /// Whether the branch is held by a first arm. The last branch is not.
    pub in_first_arm: bool,
}

/// Where branch `branch` of `count` stands, branches counted from zero.
pub open spec fn arm_path(count: usize, branch: usize) -> ArmPath {
    ArmPath { depth: branch, in_first_arm: branch + 1 < count }
}

/// Hands out the places of the branches of one conditional, first to
/// last.
pub struct ArmSequence {
    count: usize,
    skipped: usize,
}

impl ArmSequence {
    /// How many branches the conditional has.
    pub closed spec fn count(&self) -> usize {
        self.count
    }

    /// How many branches have their place.
    pub closed spec fn placed(&self) -> usize {
        self.skipped
    }

    pub fn new(count: usize) -> (arms: Self)
        ensures
            arms.count() == count,
            arms.placed() == 0,
    {
        ArmSequence { count, skipped: 0 }
    }

    /// Whether a branch is left to place.
    pub fn has_next(&self) -> (more: bool)
        ensures
            more == (self.placed() < self.count()),
    {
        self.skipped < self.count
    }

    /// The place of the next branch.
    pub fn apply(&mut self) -> (path: ArmPath)
        requires
            old(self).placed() < old(self).count(),
        ensures
            path == arm_path(old(self).count(), old(self).placed()),
            final(self).count() == old(self).count(),
            final(self).placed() == old(self).placed() + 1,
    {
        let path = ArmPath { depth: self.skipped, in_first_arm: self.skipped != self.count - 1 };
        self.skipped = self.skipped + 1;
        path
    }
}

/// No two branches of a conditional stand in the same place, and only the
/// last one stands bare.
pub proof fn lemma_arm_paths_differ(count: usize, first: usize, second: usize)
    requires
        first < count,
        second < count,
        first != second,
    ensures
        arm_path(count, first) != arm_path(count, second),
        arm_path(count, first).in_first_arm <==> first != count - 1,
{
}

} // verus!
