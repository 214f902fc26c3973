//! What the outcome of a remote operation means for the pipeline. The calls
//! themselves are made elsewhere; here each outcome, written down as a plain
//! value, is turned into the result that the caller of the stage sees.

use vstd::prelude::*;
use crate::error::PipelineError;

verus! {

/// The outcome of asking the dataset's host for the dataset.
#[derive(Debug, Clone, PartialEq, Eq)]
pub enum FetchReply {
    /// The host answered with this HTTP status and body.
    Answered { status: u16, body: Vec<u8> },
    /// No answer arrived: the connection failed or timed out.
    Failed,
}

/// The outcome of asking the blob store for an object.
#[derive(Debug, Clone, PartialEq, Eq)]
pub enum GetReply {
    /// The store holds the object and sent all of it.
    Found(Vec<u8>),
    /// The store holds no object under the key.
    NoSuchKey,
    /// The store could not be reached, refused access, or broke off.
    Unreachable,
}

/// The outcome of asking the blob store to keep an object.
#[derive(Debug, Clone, Copy, PartialEq, Eq)]
pub enum PutReply {
    /// The store keeps the object.
    Stored,
    /// The store answered with an error of this HTTP status.
    Refused { status: u16 },
    /// The request was not sent, because the key or the bucket is not one
    /// that the store takes.
    Invalid,
    /// No answer arrived: the connection failed or timed out.
    Unreachable,
}

/// Whether an HTTP status reports success.
pub open spec fn is_success(status: u16) -> bool {
    200 <= status < 300
}

/// The bytes of the dataset, where the host answered with a success status;
/// any other outcome is a transport error.
pub fn dataset_bytes(reply: FetchReply) -> (result: Result<Vec<u8>, PipelineError>)
    ensures
        match reply {
            FetchReply::Answered { status, body } => if is_success(status) {
                result == Ok::<Vec<u8>, PipelineError>(body)
            } else {
                result == Err::<Vec<u8>, PipelineError>(PipelineError::TransportError)
            },
            FetchReply::Failed => result == Err::<Vec<u8>, PipelineError>(
                PipelineError::TransportError,
            ),
        },
{
    match reply {
        FetchReply::Answered { status, body } => {
            if 200 <= status && status < 300 {
                Ok(body)
            } else {
                Err(PipelineError::TransportError)
            }
        },
        FetchReply::Failed => Err(PipelineError::TransportError),
    }
}

/// The artifact that a download gave: the whole blob where the store found
/// it, `ArtifactNotFound` where the store holds nothing under the key, and
/// `StorageUnavailable` where the store could not be asked.
pub fn artifact_bytes(reply: GetReply) -> (result: Result<Vec<u8>, PipelineError>)
    ensures
        match reply {
            GetReply::Found(blob) => result == Ok::<Vec<u8>, PipelineError>(blob),
            GetReply::NoSuchKey => result == Err::<Vec<u8>, PipelineError>(
                PipelineError::ArtifactNotFound,
            ),
            GetReply::Unreachable => result == Err::<Vec<u8>, PipelineError>(
                PipelineError::StorageUnavailable,
            ),
        },
{
    match reply {
        GetReply::Found(blob) => Ok(blob),
        GetReply::NoSuchKey => Err(PipelineError::ArtifactNotFound),
        GetReply::Unreachable => Err(PipelineError::StorageUnavailable),
    }
}

/// Whether an HTTP status of the store tells that the store cannot serve the
/// caller now: the caller is not authenticated or not permitted, or the store
/// itself is in trouble.
pub open spec fn is_unavailable(status: u16) -> bool {
    status == 401 || status == 403 || status >= 500
}

/// The result of an upload: done where the store keeps the object;
/// `StorageUnavailable` where no answer arrived or the answer tells that the
/// store cannot serve the caller; `StorageWriteError` where the store refused
/// the write for another reason, or the request was not one to send.
pub fn upload_result(reply: PutReply) -> (result: Result<(), PipelineError>)
    ensures
        match reply {
            PutReply::Stored => result is Ok,
            PutReply::Refused { status } => if is_unavailable(status) {
                result == Err::<(), PipelineError>(PipelineError::StorageUnavailable)
            } else {
                result == Err::<(), PipelineError>(PipelineError::StorageWriteError)
            },
            PutReply::Invalid => result == Err::<(), PipelineError>(PipelineError::StorageWriteError),
            PutReply::Unreachable => result == Err::<(), PipelineError>(
                PipelineError::StorageUnavailable,
            ),
        },
{
    match reply {
        PutReply::Stored => Ok(()),
        PutReply::Refused { status } => {
            if status == 401 || status == 403 || status >= 500 {
                Err(PipelineError::StorageUnavailable)
            } else {
                Err(PipelineError::StorageWriteError)
            }
        },
        PutReply::Invalid => Err(PipelineError::StorageWriteError),
        PutReply::Unreachable => Err(PipelineError::StorageUnavailable),
    }
}

} // verus!
