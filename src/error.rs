use vstd::prelude::*;

verus! {

/// Evaluation errors.
#[derive(Debug)]
pub enum Error {
    /// A variable was read before any assignment to it.
    UnboundVariable(String),
}

impl Error {
    /// The name of the variable that the error is about.
    pub open spec fn name(self) -> Seq<char> {
        match self {
            Error::UnboundVariable(x) => x@,
        }
    }
}

} // verus!
