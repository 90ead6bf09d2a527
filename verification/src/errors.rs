//! The failure taxonomy of the coordination core, and the coarser
//! classification that the outward boundary is allowed to disclose.

use vstd::prelude::*;

verus! {

/// Structured failure reasons handed to collaborators. Raw storage errors are
/// never passed through: every failure is classified into one of these.
#[derive(Clone, Copy, Debug, PartialEq, Eq, Structural)]
pub enum Error {
    /// No user record exists for the presented identity.
    UserNotFound,
    /// The user exists but has no nonce record (an inconsistent account).
    NonceNotFound,
    /// No matching task exists for the caller.
    TaskNotFound,
    /// The credential did not verify, or the presented session is stale.
    AuthenticationFailed,
    /// The backing store could not commit the operation.
    StorageFailure,
    /// The operation conflicts with already-committed state.
    ConflictingState,
}

/// What an outside observer may learn from a failed request.
#[derive(Clone, Copy, Debug, PartialEq, Eq, Structural)]
pub enum OutwardReply {
    /// The caller must (re-)authenticate; which factor failed is not disclosed.
    AuthenticationRequired,
    /// The requested resource does not exist for this caller.
    NothingToDo,
    /// An internal failure; the caller may retry later.
    Internal,
}

/// The disclosure policy: account-related failures collapse into a single
/// outward reply so that an observer cannot probe which factor failed.
pub open spec fn outward_of(e: Error) -> OutwardReply {
    match e {
        Error::UserNotFound => OutwardReply::AuthenticationRequired,
        Error::NonceNotFound => OutwardReply::AuthenticationRequired,
        Error::AuthenticationFailed => OutwardReply::AuthenticationRequired,
        Error::ConflictingState => OutwardReply::AuthenticationRequired,
        Error::TaskNotFound => OutwardReply::NothingToDo,
        Error::StorageFailure => OutwardReply::Internal,
    }
}

/// Maps a classified failure to the reply the outward boundary may show.
pub fn outward(e: Error) -> (r: OutwardReply)
    ensures
        r == outward_of(e),
{
    match e {
        Error::UserNotFound => OutwardReply::AuthenticationRequired,
        Error::NonceNotFound => OutwardReply::AuthenticationRequired,
        Error::AuthenticationFailed => OutwardReply::AuthenticationRequired,
        Error::ConflictingState => OutwardReply::AuthenticationRequired,
        Error::TaskNotFound => OutwardReply::NothingToDo,
        Error::StorageFailure => OutwardReply::Internal,
    }
}

/// An unknown account is a distinct reason inside the core, yet an outside
/// observer cannot tell it apart from a failed credential: both collapse to
/// the same outward reply, as do the other account-related failures.
pub proof fn lemma_outward_non_disclosure()
    ensures
        Error::UserNotFound != Error::AuthenticationFailed,
        Error::NonceNotFound != Error::AuthenticationFailed,
        Error::ConflictingState != Error::AuthenticationFailed,
        outward_of(Error::UserNotFound) == outward_of(Error::AuthenticationFailed),
        outward_of(Error::NonceNotFound) == outward_of(Error::AuthenticationFailed),
        outward_of(Error::ConflictingState) == outward_of(Error::AuthenticationFailed),
        outward_of(Error::StorageFailure) != outward_of(Error::AuthenticationFailed),
{
}

} // verus!
