//! Errors of the user interface.
use vstd::prelude::*;

verus! {

/// An error raised while the user interface is built.
#[derive(Debug, Clone)]
pub struct UiError {
    pub what: String,
}

impl UiError {
    pub fn new(what: String) -> (r: UiError)
        ensures
            r.what@ == what@,
    {
        UiError { what }
    }
}

} // verus!
