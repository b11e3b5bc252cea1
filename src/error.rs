//! The error type of the flashing tool.
use vstd::prelude::*;

verus! {

/// An error of the flashing tool, carrying a message for the operator.
#[derive(Debug, Clone)]
pub struct FlasherError(pub String);

impl FlasherError {
    /// An error with the given message.
    pub fn new(message: &str) -> (r: Self)
        ensures
            r.0@ == message@,
    {
        FlasherError(message.to_owned())
    }

    /// The error's message.
    pub fn message(&self) -> (r: String)
        ensures
            r@ == self.0@,
    {
        self.0.clone()
    }
}

} // verus!
