use vstd::prelude::*;

verus! {

/// Error returned by the library's fallible operations, with a message.
#[derive(Debug)]
pub struct Error {
    pub message: String,
}

impl Error {
    /// Returns an error with the given message.
    pub fn new(message: &str) -> (e: Error)
        ensures
            e.message@ == message@,
    {
        Error { message: message.to_string() }
    }
}

} // verus!
