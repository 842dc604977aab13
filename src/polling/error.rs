//! Errors of the polling service.
use vstd::prelude::*;

verus! {

/// What went wrong in a polling operation.
#[derive(Clone, Debug)]
pub enum PrivatePollingError {
    GeneralError(String),
    FetchPollsError(String),
    MessageNotWellFormed,
    MissingPolls,
    MissingPartialDecryptionForPoll(u64),
    FailedToVerifyPartialDecryption,
    FailedToCreatePartialDecryption(String),
    EncryptionFailed(String),
    DecryptionFailed(String),
    PostPollResultError(String),
    DeserializationError(String),
}

} // verus!
