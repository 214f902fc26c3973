use house_price_predictor::error::PipelineError;
use house_price_predictor::remote::{
    artifact_bytes, dataset_bytes, upload_result, FetchReply, GetReply, PutReply,
};
use house_price_predictor::store::MemoryStore;

#[test]
fn a_key_that_was_never_put_is_not_found() {
    let store = MemoryStore::new();
    assert_eq!(store.get("models", "boston.bin"), Err(PipelineError::ArtifactNotFound));
}

#[test]
fn a_key_is_not_found_beside_other_keys() {
    let mut store = MemoryStore::new();
    store.put(vec![1, 2, 3], "models", "boston.bin").unwrap();
    assert_eq!(store.get("models", "other.bin"), Err(PipelineError::ArtifactNotFound));
    assert_eq!(store.get("other", "boston.bin"), Err(PipelineError::ArtifactNotFound));
    assert_eq!(store.get("", ""), Err(PipelineError::ArtifactNotFound));
}

#[test]
fn what_was_put_is_got_back_whole() {
    let mut store = MemoryStore::new();
    let blob: Vec<u8> = (0..=255).collect();
    assert_eq!(store.put(blob.clone(), "models", "boston.bin"), Ok(()));
    assert_eq!(store.get("models", "boston.bin"), Ok(blob));
}

#[test]
fn an_empty_blob_is_kept() {
    let mut store = MemoryStore::new();
    store.put(Vec::new(), "models", "empty").unwrap();
    assert_eq!(store.get("models", "empty"), Ok(Vec::new()));
}

#[test]
fn a_later_put_replaces_an_earlier_one() {
    let mut store = MemoryStore::new();
    store.put(vec![1], "models", "boston.bin").unwrap();
    store.put(vec![9, 9], "models", "other.bin").unwrap();
    store.put(vec![2, 3], "models", "boston.bin").unwrap();
    assert_eq!(store.get("models", "boston.bin"), Ok(vec![2, 3]));
    assert_eq!(store.get("models", "other.bin"), Ok(vec![9, 9]));
}

#[test]
fn buckets_are_kept_apart() {
    let mut store = MemoryStore::new();
    store.put(vec![1], "a", "key").unwrap();
    store.put(vec![2], "b", "key").unwrap();
    assert_eq!(store.get("a", "key"), Ok(vec![1]));
    assert_eq!(store.get("b", "key"), Ok(vec![2]));
}

#[test]
fn bucket_and_key_are_not_run_together() {
    let mut store = MemoryStore::new();
    store.put(vec![1], "ab", "c").unwrap();
    assert_eq!(store.get("a", "bc"), Err(PipelineError::ArtifactNotFound));
}

#[test]
fn a_dataset_comes_with_a_success_status() {
    let body = b"crim,zn\n0.1,18\n".to_vec();
    assert_eq!(dataset_bytes(FetchReply::Answered { status: 200, body: body.clone() }), Ok(body));
    assert_eq!(dataset_bytes(FetchReply::Answered { status: 299, body: vec![7] }), Ok(vec![7]));
    assert_eq!(dataset_bytes(FetchReply::Answered { status: 204, body: Vec::new() }), Ok(Vec::new()));
}

#[test]
fn any_other_status_is_a_transport_error() {
    for status in [0u16, 100, 199, 300, 301, 404, 500, 503, u16::MAX] {
        let reply = FetchReply::Answered { status, body: vec![1, 2] };
        assert_eq!(dataset_bytes(reply), Err(PipelineError::TransportError));
    }
}

#[test]
fn a_fetch_without_an_answer_is_a_transport_error() {
    assert_eq!(dataset_bytes(FetchReply::Failed), Err(PipelineError::TransportError));
}

#[test]
fn a_found_artifact_is_handed_on_whole() {
    assert_eq!(artifact_bytes(GetReply::Found(vec![4, 5, 6])), Ok(vec![4, 5, 6]));
    assert_eq!(artifact_bytes(GetReply::Found(Vec::new())), Ok(Vec::new()));
}

#[test]
fn a_missing_key_is_not_a_transport_failure() {
    assert_eq!(artifact_bytes(GetReply::NoSuchKey), Err(PipelineError::ArtifactNotFound));
    assert_eq!(artifact_bytes(GetReply::Unreachable), Err(PipelineError::StorageUnavailable));
}

#[test]
fn an_upload_reports_how_it_ended() {
    assert_eq!(upload_result(PutReply::Stored), Ok(()));
    assert_eq!(upload_result(PutReply::Invalid), Err(PipelineError::StorageWriteError));
    assert_eq!(upload_result(PutReply::Unreachable), Err(PipelineError::StorageUnavailable));
}

#[test]
fn a_refused_upload_is_a_write_error() {
    for status in [400u16, 404, 405, 409, 413, 499] {
        assert_eq!(
            upload_result(PutReply::Refused { status }),
            Err(PipelineError::StorageWriteError)
        );
    }
}

#[test]
fn an_upload_refused_for_want_of_access_is_unavailable() {
    for status in [401u16, 403, 500, 503, u16::MAX] {
        assert_eq!(
            upload_result(PutReply::Refused { status }),
            Err(PipelineError::StorageUnavailable)
        );
    }
}
