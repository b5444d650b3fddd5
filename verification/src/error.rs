//! What can be wrong with a sketch, or with a request to it.

use vstd::prelude::*;

verus! {

/// The errors of the kernel.
#[derive(Debug, Clone, Copy, PartialEq, Eq, Structural)]
pub enum SketchError {
    /// The three points of an arc lie on one straight line: no circle
    /// passes through them.
    DegenerateArc,
    /// A segment ends where no other segment goes on: a walk along it
    /// cannot close.
    DisconnectedSegment,
    /// A segment or a ring was asked for at a place that is not there.
    IndexOutOfRange,
}

impl SketchError {
    /// What the error says.
    pub open spec fn message(&self) -> Seq<char> {
        match self {
            SketchError::DegenerateArc => "the points of an arc lie on one line"@,
            SketchError::DisconnectedSegment => "a segment ends where no other goes on"@,
            SketchError::IndexOutOfRange => "index out of range"@,
        }
    }

    pub fn to_string(&self) -> (r: String)
        ensures
            r@ == self.message(),
    {
        match self {
            SketchError::DegenerateArc => "the points of an arc lie on one line".to_owned(),
            SketchError::DisconnectedSegment => "a segment ends where no other goes on".to_owned(),
            SketchError::IndexOutOfRange => "index out of range".to_owned(),
        }
    }
}

} // verus!
