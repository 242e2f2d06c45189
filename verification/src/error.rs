//! Failures, told by their message.

use vstd::prelude::*;

verus! {

/// What went wrong, as told to the user.
#[derive(Debug)]
pub struct OpsError {
    pub message: String,
}

impl View for OpsError {
    type V = Seq<char>;

    open spec fn view(&self) -> Seq<char> {
        self.message@
    }
}

impl OpsError {
    /// A failure with the given message.
    pub fn new(message: String) -> (e: OpsError)
        ensures
            e@ == message@,
    {
        OpsError { message }
    }

    /// The message.
    pub fn message(&self) -> (m: &str)
        ensures
            m@ == self@,
    {
        self.message.as_str()
    }
}

} // verus!
