use vstd::prelude::*;

verus! {

/// The kind of a failure, without its human-readable message.  Contracts are
/// stated over kinds: the message text is presentation, deliberately left
/// unspecified.
#[derive(Clone, Copy, Debug, PartialEq, Eq, Structural)]
pub enum ErrKind {
    /// A document node had the wrong shape (expected a mapping, sequence,
    /// string or integer and found something else), or a structural rule on
    /// such a node (such as the exactly-one-key form of a command argument)
    /// was violated.
    InvalidType,
    /// The document root itself is not a mapping.
    InvalidFormat,
}

/// A parse failure: the kind drives the semantics, the string carries a
/// human-readable description of the expected shape.
#[derive(Clone, Debug, PartialEq, Eq)]
pub enum Error {
    InvalidType(String),
    InvalidFormat(String),
}

impl Error {
    /// The kind of this error, for contracts.
    pub open spec fn kind(&self) -> ErrKind {
        match self {
            Error::InvalidType(_) => ErrKind::InvalidType,
            Error::InvalidFormat(_) => ErrKind::InvalidFormat,
        }
    }

    /// The human-readable message, for presentation by the caller.
    pub fn message(&self) -> &str {
        match self {
            Error::InvalidType(m) => m.as_str(),
            Error::InvalidFormat(m) => m.as_str(),
        }
    }
}

} // verus!
