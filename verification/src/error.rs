//! Error types for progress control operations.

use vstd::prelude::*;

verus! {

/// The reason why a control operation could not be performed.
#[derive(Debug, Clone, Copy, PartialEq, Eq, Structural)]
pub enum ControlError {
    /// The progress task is not pausable.
    NotPausable,
    /// The progress task is not cancelable.
    NotCancelable,
}

impl ControlError {
    /// Returns a sentence that describes the error.
    pub fn description(&self) -> (text: String)
        ensures
            *self == ControlError::NotPausable ==> text@ == "progress task is not pausable"@,
            *self == ControlError::NotCancelable ==> text@ == "progress task is not cancelable"@,
    {
        match self {
            ControlError::NotPausable => "progress task is not pausable".to_owned(),
            ControlError::NotCancelable => "progress task is not cancelable".to_owned(),
        }
    }
}

} // verus!
