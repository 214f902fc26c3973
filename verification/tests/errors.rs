use house_price_predictor::error::{FieldProblem, PipelineError};

#[test]
fn every_error_has_a_message() {
    assert_eq!(
        PipelineError::TransportError.message(),
        "transport error: the dataset could not be fetched"
    );
    assert_eq!(
        PipelineError::DecodeError.message(),
        "decode error: the data is not a rectangular table"
    );
    assert_eq!(PipelineError::InvalidArgument.message(), "invalid argument");
    assert_eq!(
        PipelineError::NonContiguousData.message(),
        "non-contiguous data: the table has missing values"
    );
    assert_eq!(
        PipelineError::DeserializationError.message(),
        "deserialization error: not a valid model artifact"
    );
    assert_eq!(PipelineError::StorageUnavailable.message(), "storage unavailable");
    assert_eq!(PipelineError::StorageWriteError.message(), "storage write error");
    assert_eq!(PipelineError::ArtifactNotFound.message(), "artifact not found");
}

#[test]
fn a_missing_column_is_named_in_the_message() {
    assert_eq!(
        PipelineError::MissingColumn("medv".to_string()).message(),
        "missing column: medv"
    );
}

#[test]
fn a_validation_error_names_the_field_and_what_is_wrong() {
    let error = |problem| PipelineError::ValidationError { field: "rm".to_string(), problem };
    assert_eq!(error(FieldProblem::Missing).message(), "validation error: missing field rm");
    assert_eq!(
        error(FieldProblem::NotNumeric).message(),
        "validation error: non-numeric field rm"
    );
    assert_eq!(
        error(FieldProblem::Duplicated).message(),
        "validation error: duplicated field rm"
    );
}
