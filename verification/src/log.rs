use vstd::prelude::*;

verus! {

/// How important a log message is.
#[derive(Clone, Copy, Debug, Eq, Ord, PartialEq, PartialOrd, Structural)]
pub enum Level {
    Verbose,
    Info,
    Always,
}

impl Level {
    /// The rank of the level: verbose, info, always.
    pub open spec fn rank(self) -> nat {
        match self {
            Level::Verbose => 0,
            Level::Info => 1,
            Level::Always => 2,
        }
    }
}

/// A message of `level` is written by a logger of `threshold`: it is at least as important.
pub fn should_log(level: Level, threshold: Level) -> (r: bool)
    ensures
        r == (level.rank() >= threshold.rank()),
{
    let a: u8 = match level {
        Level::Verbose => 0,
        Level::Info => 1,
        Level::Always => 2,
    };
    let b: u8 = match threshold {
        Level::Verbose => 0,
        Level::Info => 1,
        Level::Always => 2,
    };
    a >= b
}

} // verus!
