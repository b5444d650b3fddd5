//! What an extrusion does with the solid that it makes.

use vstd::prelude::*;

verus! {

/// How the solid swept from a face joins what is already there.
#[derive(Debug, Clone, Copy, PartialEq, Eq, Structural)]
pub enum Operation {
    /// The solid stands on its own.
    New,
    /// The solid is added to those that it touches.
    Add,
    /// The solid is cut out of those that it touches.
    Remove,
}

impl Operation {
    /// The name of the operation.
    pub open spec fn name(&self) -> Seq<char> {
        match self {
            Operation::New => "New"@,
            Operation::Add => "Add"@,
            Operation::Remove => "Remove"@,
        }
    }

    /// The name of the operation, as it is shown.
    pub fn to_string(&self) -> (r: String)
        ensures
            r@ == self.name(),
    {
        match self {
            Operation::New => "New".to_owned(),
            Operation::Add => "Add".to_owned(),
            Operation::Remove => "Remove".to_owned(),
        }
    }
}

} // verus!
