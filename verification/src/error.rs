//! The top-level error type: a user interruption is a distinct, quiet
//! outcome; everything else carries a message to display.

use vstd::prelude::*;
use vstd::string::StringExecFns;

verus! {

/// What ended a run early: the user cancelled, or something failed.
#[derive(Debug)]
pub enum VssError {
    /// The user interrupted the operation; the process exits cleanly.
    UserInterrupted,
    /// Any other failure, with its message.
    Other(String),
}

impl VssError {
    /// Whether this outcome is a user interruption.
    pub fn is_interrupted(&self) -> (r: bool)
        ensures
            r == (self matches VssError::UserInterrupted),
    {
        match self {
            VssError::UserInterrupted => true,
            VssError::Other(_) => false,
        }
    }

    /// The error rendered as one line of text.
    pub fn message(&self) -> (r: String)
        ensures
            match self {
                VssError::UserInterrupted => r@ == "Interrupted by user"@,
                VssError::Other(m) => r@ == m@,
            },
    {
        match self {
            VssError::UserInterrupted => String::from_str("Interrupted by user"),
            VssError::Other(m) => m.clone(),
        }
    }
}

} // verus!
