//! What a failure says: a message, and whether trying again may help.

use vstd::prelude::*;

verus! {

/// A failure: what went wrong, and whether trying again may help.
#[derive(Debug, PartialEq, Eq)]
pub struct TransportError {
    pub message: String,
    pub retryable: bool,
}

/// What comes of an operation that may fail.
pub type Result<T> = std::result::Result<T, TransportError>;

/// What a [`TransportError`] says.
pub struct Failure {
    pub message: Seq<char>,
    pub retryable: bool,
}

impl View for TransportError {
    type V = Failure;

    open spec fn view(&self) -> Failure {
        Failure { message: self.message@, retryable: self.retryable }
    }
}

impl Clone for TransportError {
    fn clone(&self) -> (copy: Self)
        ensures
            copy@ == self@,
    {
        TransportError { message: self.message.clone(), retryable: self.retryable }
    }
}

/// A failure that trying again will not mend.
pub open spec fn permanent(message: Seq<char>) -> Failure {
    Failure { message, retryable: false }
}

impl TransportError {
    /// A failure that trying again will not mend.
    pub fn permanent(message: String) -> (error: Self)
        ensures
            error@ == permanent(message@),
    {
        TransportError { message, retryable: false }
    }

    /// A failure that may pass.
    pub fn retryable(message: String) -> (error: Self)
        ensures
            error@ == (Failure { message: message@, retryable: true }),
    {
        TransportError { message, retryable: true }
    }
}

/// The other side did not keep to the protocol: trying again will not
/// mend it.
pub fn protocol_error(message: &str) -> (error: TransportError)
    ensures
        error@ == permanent(message@),
{
    TransportError::permanent(message.to_string())
}

} // verus!
