//! The errors of the engine, and how the errors of its parts map into them.
use vstd::prelude::*;
use vstd::std_specs::convert::FromSpecImpl;
use crate::multi_signature_account::MultiSigAcctError;
use crate::pending_call::PendingCallError;

verus! {

/// Why the engine refused an operation. A refused operation changes nothing.
#[derive(Clone, Copy, Debug, PartialEq, Eq, Structural)]
pub enum Error {
    /// Signers list contains duplicates.
    DuplicatesInList,
    /// Caller not in signatories.
    CallerNotSignatory,
    /// Multi-sig account already exists.
    MSAAlreadyExists,
    /// Multi-sig account not found.
    MSANotFound,
    /// Must have at least 2 signers.
    SignatoriesTooShort,
    /// Too many signers.
    SignatoriesTooLong,
    /// Approval already exists.
    ApprovalExists,
    /// Attempting to remove a nonexistent approval.
    ApprovalDoesntExist,
    /// Minimum approvals is out of range.
    MinApprovalOutOfRange,
    /// Proposed minimum equals the existing one.
    NewMinimumEqualsCurrentMinimum,
    /// Account is already an author.
    AccountAlreadyAuthor,
    /// Only the account itself can do this.
    OnlyMSAItselfCanDoThis,
    /// Authors list too long.
    AuthorVecTooLong,
    /// Not an author.
    AccountNotAuthor,
    /// Not a signatory.
    AccountNotSignatory,
    /// Reached max possible authors.
    AccountErrorMaxAuthors,
    /// Pending calls limit reached.
    CallLimit,
    /// Approvals limit reached.
    ApprovalsLimitReached,
    /// Failed to encode call.
    CallEncodingFailure,
    /// This account hit its multi-sig limit.
    AccountAtMultiSigLimit,
    /// Failed to create pending call.
    FailedToCreatePendingCall,
    /// Call not found for multi-sig.
    CallNotFound,
    /// Failed to decode call.
    FailureDecodingCall,
    /// Failure building a bounded list.
    FailedToBuildBoundedVec,
    /// Min approval proposal not found.
    ProposalNotFound,
    /// Proposal already pending.
    ProposalAlreadyPending,
    /// A list of authors names nobody.
    AuthorListEmpty,
}

/// The engine error that stands for an account error.
pub open spec fn error_of_account_error(account_error: MultiSigAcctError) -> Error {
    match account_error {
        MultiSigAcctError::SignatoriesListTooShort => Error::SignatoriesTooShort,
        MultiSigAcctError::AccountAlreadyAuthor => Error::AccountAlreadyAuthor,
        MultiSigAcctError::AuthorVecTooLong => Error::AuthorVecTooLong,
        MultiSigAcctError::AccountNotSignatory => Error::AccountNotAuthor,
        MultiSigAcctError::AtMaxAuthors => Error::AccountErrorMaxAuthors,
        MultiSigAcctError::AtPendingCallLimit => Error::CallLimit,
        MultiSigAcctError::MinApprovalsOutOfRange => Error::MinApprovalOutOfRange,
        MultiSigAcctError::CallNotFound => Error::CallNotFound,
        MultiSigAcctError::DuplicatesInList => Error::DuplicatesInList,
        MultiSigAcctError::SignatoriesListTooLong => Error::SignatoriesTooLong,
        MultiSigAcctError::AuthorListEmpty => Error::AuthorListEmpty,
    }
}

/// The engine error that stands for a pending-call error.
pub open spec fn error_of_call_error(err: PendingCallError) -> Error {
    match err {
        PendingCallError::ReachedBoundedApprovalLimit => Error::ApprovalsLimitReached,
        PendingCallError::FailureEncodingCall => Error::CallEncodingFailure,
        PendingCallError::FailureDecodingCall => Error::FailureDecodingCall,
    }
}

impl From<MultiSigAcctError> for Error {
    fn from(account_error: MultiSigAcctError) -> (err: Self) {
        match account_error {
            MultiSigAcctError::SignatoriesListTooShort => Error::SignatoriesTooShort,
            MultiSigAcctError::AccountAlreadyAuthor => Error::AccountAlreadyAuthor,
            MultiSigAcctError::AuthorVecTooLong => Error::AuthorVecTooLong,
            MultiSigAcctError::AccountNotSignatory => Error::AccountNotAuthor,
            MultiSigAcctError::AtMaxAuthors => Error::AccountErrorMaxAuthors,
            MultiSigAcctError::AtPendingCallLimit => Error::CallLimit,
            MultiSigAcctError::MinApprovalsOutOfRange => Error::MinApprovalOutOfRange,
            MultiSigAcctError::CallNotFound => Error::CallNotFound,
            MultiSigAcctError::DuplicatesInList => Error::DuplicatesInList,
            MultiSigAcctError::SignatoriesListTooLong => Error::SignatoriesTooLong,
            MultiSigAcctError::AuthorListEmpty => Error::AuthorListEmpty,
        }
    }
}

impl FromSpecImpl<MultiSigAcctError> for Error {
    open spec fn obeys_from_spec() -> bool {
        true
    }

    open spec fn from_spec(account_error: MultiSigAcctError) -> Error {
        error_of_account_error(account_error)
    }
}

impl From<PendingCallError> for Error {
    fn from(err: PendingCallError) -> (out: Self) {
        match err {
            PendingCallError::ReachedBoundedApprovalLimit => Error::ApprovalsLimitReached,
            PendingCallError::FailureEncodingCall => Error::CallEncodingFailure,
            PendingCallError::FailureDecodingCall => Error::FailureDecodingCall,
        }
    }
}

impl FromSpecImpl<PendingCallError> for Error {
    open spec fn obeys_from_spec() -> bool {
        true
    }

    open spec fn from_spec(err: PendingCallError) -> Error {
        error_of_call_error(err)
    }
}

} // verus!
