//! Where a stat line comes from: ESPN's `statSourceId` is 0 for game results and 1 for
//! projections.

use vstd::prelude::*;

verus! {

/// The source of a stat line.
#[derive(Clone, Copy, Debug, PartialEq, Eq, Structural)]
pub enum StatSource {
    Actual,
    Projected,
}

impl StatSource {
    /// ESPN's `statSourceId` for this source.
    pub fn id(self) -> (out: u64)
        ensures
            out == (match self {
                StatSource::Actual => 0u64,
                StatSource::Projected => 1u64,
            }),
    {
        match self {
            StatSource::Actual => 0,
            StatSource::Projected => 1,
        }
    }
}

} // verus!
