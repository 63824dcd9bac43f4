//! Why a native value could not be read exactly.

use vstd::prelude::*;

verus! {

/// Why a native value cannot cross into the neutral reading exactly.
#[derive(Clone, Copy, Debug, PartialEq, Eq)]
pub enum ValueIssue {
    /// The value is well formed natively but outside the accepted exact subset.
    Unsupported(&'static str),
    /// The value is malformed for its native key.
    Invalid(&'static str),
}

impl ValueIssue {
    /// The value-free explanation carried by this issue.
    pub fn reason(&self) -> (reason: &'static str)
        ensures
            reason == match *self {
                ValueIssue::Unsupported(r) => r,
                ValueIssue::Invalid(r) => r,
            },
    {
        match self {
            ValueIssue::Unsupported(reason) => reason,
            ValueIssue::Invalid(reason) => reason,
        }
    }
}

} // verus!
