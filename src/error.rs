//! The error that ends a run.
use vstd::prelude::*;

verus! {

/// Unrecoverable error: configuration or environment makes every further
/// attempt pointless.
#[derive(Debug)]
pub struct KillerError {
    pub detail: String,
}

impl KillerError {
    pub fn new(detail: &str) -> (r: KillerError)
        ensures
            r.detail@ == detail@,
    {
        KillerError { detail: String::from_str(detail) }
    }

    /// The text shown to the user.
    pub fn message(&self) -> (r: String)
        ensures
            r@ == self.detail@,
    {
        self.detail.clone()
    }
}

} // verus!
