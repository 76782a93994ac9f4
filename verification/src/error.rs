//! What went wrong, in words.
use crate::text::owned;
use vstd::prelude::*;

verus! {

/// A failure of a backend, described by a message.
#[derive(Debug, Clone, PartialEq, Eq)]
pub struct BackendError {
    pub message: String,
}

impl DeepView for BackendError {
    type V = Seq<char>;

    open spec fn deep_view(&self) -> Seq<char> {
        self.message@
    }
}

impl BackendError {
    /// A failure with the given message.
    pub fn new(message: &str) -> (r: Self)
        ensures
            r.deep_view() == message@,
    {
        BackendError { message: owned(message) }
    }
}

} // verus!
