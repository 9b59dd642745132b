use vstd::prelude::*;

verus! {

/// What an operation on the table can report.
#[derive(Debug, Clone, Copy, PartialEq, Eq, Structural)]
pub enum Error {
    /// The key is not in the table.
    KeyNotFound,
    /// The table has to grow and no larger backing array can be had.
    AllocationFailure,
}

impl Error {
    /// The text of [`Error::message`].
    pub open spec fn spec_message(&self) -> Seq<char> {
        match self {
            Error::KeyNotFound => "Key does not exist."@,
            Error::AllocationFailure => "Hash table full!"@,
        }
    }

    /// A sentence for the user.
    pub fn message(&self) -> (text: String)
        ensures
            text@ == self.spec_message(),
    {
        match self {
            Error::KeyNotFound => "Key does not exist.".to_owned(),
            Error::AllocationFailure => "Hash table full!".to_owned(),
        }
    }
}

} // verus!
