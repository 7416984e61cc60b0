use vstd::prelude::*;

verus! {

/// The ways an operation of this library can fail.
#[derive(Debug, PartialEq, Eq)]
pub enum DocError {
    /// A key path that is empty or holds an empty segment.
    InvalidKeyPath,
    /// A write whose path runs through an existing leaf.
    KeyPathConflict,
    /// A read or balance query that could not be answered; carries the cause.
    RemoteUnavailable(String),
    /// A local file that could not be produced; carries the offending path.
    IoFailure(String),
    /// A required deposit above the configured safety ceiling.
    DepositShortfall,
    /// A submitted call that did not end in success; carries the status text.
    SubmissionFailure(String),
    /// A network for which no document store contract is configured.
    UnknownNetwork(String),
}

} // verus!
