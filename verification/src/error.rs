//! The error taxonomy shared by every stage of the training and serving flows.

use vstd::prelude::*;
use vstd::string::*;

verus! {

/// Why a field of a prediction request was refused.
#[derive(Debug, Clone, Copy, PartialEq, Eq, Structural)]
pub enum FieldProblem {
    /// The request does not supply the field.
    Missing,
    /// The request supplies the field, but its value is not a number.
    NotNumeric,
    /// The request supplies the field more than once.
    Duplicated,
}

/// Every way a stage of the pipeline can fail. A stage reports the first error
/// it meets and never substitutes a fallback value.
#[derive(Debug, Clone, PartialEq, Eq)]
pub enum PipelineError {
    /// The remote dataset could not be fetched.
    TransportError,
    /// The fetched data does not form a rectangular table with distinct column names.
    DecodeError,
    /// An argument lies outside the domain of the operation.
    InvalidArgument,
    /// A required column, named here, is absent from the table.
    MissingColumn(String),
    /// The table cannot be laid out as a dense numeric buffer.
    NonContiguousData,
    /// The bytes are not a model artifact that the training engine can read.
    DeserializationError,
    /// The blob store could not be reached.
    StorageUnavailable,
    /// The blob store refused to write the object.
    StorageWriteError,
    /// The blob store has no object under the requested key.
    ArtifactNotFound,
    /// A prediction request is unusable because of the named field.
    ValidationError { field: String, problem: FieldProblem },
}

impl PipelineError {
    /// The text of the message for this error, as a sequence of characters.
    pub open spec fn spec_message(self) -> Seq<char> {
        match self {
            PipelineError::TransportError => "transport error: the dataset could not be fetched"@,
            PipelineError::DecodeError => "decode error: the data is not a rectangular table"@,
            PipelineError::InvalidArgument => "invalid argument"@,
            PipelineError::MissingColumn(name) => "missing column: "@ + name@,
            PipelineError::NonContiguousData => "non-contiguous data: the table has missing values"@,
            PipelineError::DeserializationError => "deserialization error: not a valid model artifact"@,
            PipelineError::StorageUnavailable => "storage unavailable"@,
            PipelineError::StorageWriteError => "storage write error"@,
            PipelineError::ArtifactNotFound => "artifact not found"@,
            PipelineError::ValidationError { field, problem } => match problem {
                FieldProblem::Missing => "validation error: missing field "@ + field@,
                FieldProblem::NotNumeric => "validation error: non-numeric field "@ + field@,
                FieldProblem::Duplicated => "validation error: duplicated field "@ + field@,
            },
        }
    }

    /// A one-line description of the error, fit for standard error or a response body.
    pub fn message(&self) -> (text: String)
        ensures
            text@ == self.spec_message(),
    {
        match self {
            PipelineError::TransportError => String::from_str(
                "transport error: the dataset could not be fetched",
            ),
            PipelineError::DecodeError => String::from_str(
                "decode error: the data is not a rectangular table",
            ),
            PipelineError::InvalidArgument => String::from_str("invalid argument"),
            PipelineError::MissingColumn(name) => String::from_str("missing column: ").concat(
                name.as_str(),
            ),
            PipelineError::NonContiguousData => String::from_str(
                "non-contiguous data: the table has missing values",
            ),
            PipelineError::DeserializationError => String::from_str(
                "deserialization error: not a valid model artifact",
            ),
            PipelineError::StorageUnavailable => String::from_str("storage unavailable"),
            PipelineError::StorageWriteError => String::from_str("storage write error"),
            PipelineError::ArtifactNotFound => String::from_str("artifact not found"),
            PipelineError::ValidationError { field, problem } => match problem {
                FieldProblem::Missing => String::from_str(
                    "validation error: missing field ",
                ).concat(field.as_str()),
                FieldProblem::NotNumeric => String::from_str(
                    "validation error: non-numeric field ",
                ).concat(field.as_str()),
                FieldProblem::Duplicated => String::from_str(
                    "validation error: duplicated field ",
                ).concat(field.as_str()),
            },
        }
    }
}

} // verus!
