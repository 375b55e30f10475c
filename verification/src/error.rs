//! A single violation.

use crate::compact::{compact_as_str, compact_clone, compact_new, compact_same, compact_text};
use compact_str::CompactString;
use vstd::prelude::*;

verus! {

/// One failed rule: a message for a human reader, and nothing else.
#[derive(Debug)]
pub struct Error {
    message: CompactString,
}

impl Error {
    /// The characters of the message.
    pub closed spec fn view(&self) -> Seq<char> {
        compact_text(self.message)
    }

    /// An error that says `message`. The message is taken as it is.
    pub fn new(message: &str) -> (error: Error)
        ensures
            error@ == message@,
    {
        Error { message: compact_new(message) }
    }

    /// What the error says.
    pub fn message(&self) -> (message: &str)
        ensures
            message@ == self@,
    {
        compact_as_str(&self.message)
    }
}

impl Clone for Error {
    fn clone(&self) -> (copy: Error)
        ensures
            copy@ == self@,
    {
        Error { message: compact_clone(&self.message) }
    }
}

impl PartialEq for Error {
    fn eq(&self, other: &Error) -> (same: bool) {
        compact_same(&self.message, &other.message)
    }
}

impl vstd::std_specs::cmp::PartialEqSpecImpl for Error {
    open spec fn obeys_eq_spec() -> bool {
        true
    }

    open spec fn eq_spec(&self, other: &Error) -> bool {
        self@ == other@
    }
}

} // verus!
