use vstd::prelude::*;

verus! {

/// Errors reported by the adaptive training library.
#[derive(Debug)]
pub enum AutomataError {
    /// A configuration, batch, or shape was rejected before any work ran.
    InvalidArgument(String),
    /// A model or material layout violated an internal consistency rule.
    InvalidModel(String),
}

impl AutomataError {
    /// The human-readable message carried by the error.
    pub open spec fn text(&self) -> Seq<char> {
        match self {
            AutomataError::InvalidArgument(message) => message@,
            AutomataError::InvalidModel(message) => message@,
        }
    }

    /// Renders the error as its message.
    pub fn to_string(&self) -> (s: String)
        ensures
            s@ == self.text(),
    {
        match self {
            AutomataError::InvalidArgument(message) => message.clone(),
            AutomataError::InvalidModel(message) => message.clone(),
        }
    }
}

/// Result type of the library.
pub type AutomataResult<T> = Result<T, AutomataError>;

/// An invalid-argument error whose message is `s`.
pub fn invalid_argument(s: &str) -> (e: AutomataError)
    ensures
        e is InvalidArgument,
        e.text() == s@,
{
    AutomataError::InvalidArgument(crate::text::text(s))
}

/// True when `r` is an invalid-argument error with message `m`.
pub open spec fn is_invalid_argument<T>(r: AutomataResult<T>, m: Seq<char>) -> bool {
    &&& r is Err
    &&& r->Err_0 is InvalidArgument
    &&& r->Err_0.text() == m
}

/// True when `r` is an invalid-model error with message `m`.
pub open spec fn is_invalid_model<T>(r: AutomataResult<T>, m: Seq<char>) -> bool {
    &&& r is Err
    &&& r->Err_0 is InvalidModel
    &&& r->Err_0.text() == m
}

} // verus!
