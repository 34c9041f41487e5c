//! The roll request: how many dice, of what size, a flat bonus, and which
//! extreme die (if any) is left out of the total.

use vstd::prelude::*;

verus! {

/// Which single die, if any, is dropped from a multi-die total.
#[derive(PartialEq, Eq, Structural, Clone, Copy, Debug)]
pub enum Exclude {
    /// Drop the first lowest die.
    Low,
    /// Drop the first highest die.
    High,
    /// Keep every die.
    KeepAll,
}

/// One roll request: `num` dice of `die` faces plus `bonus`.
/// A `die` of zero means a flat value with no die.
#[derive(PartialEq, Eq, Structural, Clone, Copy, Debug)]
pub struct Roll {
    pub num: u32,
    pub die: u32,
    pub bonus: i32,
    pub exclude: Exclude,
}

} // verus!
