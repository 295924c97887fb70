//! The error values that the conversion and sorting operations return.

use vstd::prelude::*;
use vstd::string::StringExecFns;

verus! {

/// The error type shared by every conversion and sorting operation.
///
/// All core operations return a result rather than panicking; the `Reason`
/// variant carries the human-readable diagnostic that the caller prints.
#[derive(Debug, Clone, PartialEq, Eq)]
pub enum TektonError {
    /// An error with a message naming the reason.
    Reason(String),
    /// A marker that the file should be retried with multi-prefix support.
    SwitchModes(bool),
}

impl TektonError {
    /// What [`TektonError::message`] returns, as a sequence of characters.
    pub open spec fn message_spec(&self) -> Seq<char> {
        match self {
            TektonError::Reason(r) => r@,
            TektonError::SwitchModes(b) => if *b {
                "true"@
            } else {
                "false"@
            },
        }
    }

    /// The text of the error, as it is shown to the user.
    pub fn message(&self) -> (r: String)
        ensures
            r@ == self.message_spec(),
    {
        match self {
            TektonError::Reason(r) => r.clone(),
            TektonError::SwitchModes(b) => {
                if *b {
                    String::from_str("true")
                } else {
                    String::from_str("false")
                }
            },
        }
    }
}

/// The error type of the oldest snippet-building helpers.
#[derive(Debug, Clone, PartialEq, Eq)]
pub enum SnippetError {
    /// An error with a message naming the reason.
    Reason(String),
}

impl SnippetError {
    /// What [`SnippetError::message`] returns, as a sequence of characters.
    pub open spec fn message_spec(&self) -> Seq<char> {
        match self {
            SnippetError::Reason(r) => r@,
        }
    }

    /// The text of the error, as it is shown to the user.
    pub fn message(&self) -> (r: String)
        ensures
            r@ == self.message_spec(),
    {
        match self {
            SnippetError::Reason(r) => r.clone(),
        }
    }
}

} // verus!
