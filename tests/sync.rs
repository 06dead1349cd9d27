use oxen::error::OxenError;
use oxen::hashing::hash_buffer;
use oxen::remote_status::{CommitQuery, RemoteSyncStatus};
use oxen::sync::{
    chunk_buffer, interpret_lookup, post_data_to_server, upload_chunk_uri, ChunkParams,
    PushAction, PushEvent, PushPhase, PushSession, TransferConfig, UploadPlan, AVG_CHUNK_SIZE,
    NUM_HTTP_RETRIES,
};

#[test]
fn chunks_concatenate_back_to_the_buffer() {
    let buffer: Vec<u8> = (0..100u32).map(|i| (i * 7 % 251) as u8).collect();
    let chunks = chunk_buffer(&buffer, 16);
    assert_eq!(chunks.len(), 7);
    assert_eq!(chunks[6].len(), 4);
    let joined: Vec<u8> = chunks.concat();
    assert_eq!(joined, buffer);
}

#[test]
fn exact_multiple_gives_full_chunks() {
    let buffer = vec![1u8; 48];
    let chunks = chunk_buffer(&buffer, 16);
    assert_eq!(chunks.len(), 3);
    assert!(chunks.iter().all(|c| c.len() == 16));
}

#[test]
fn empty_buffer_has_no_chunks() {
    let chunks = chunk_buffer(&[], 16);
    assert!(chunks.is_empty());
}

#[test]
fn small_bundle_goes_whole() {
    let config = TransferConfig { max_attempts: 2, chunk_size: 16 };
    match post_data_to_server(vec![9u8; 16], &config) {
        UploadPlan::Single(b) => assert_eq!(b, vec![9u8; 16]),
        UploadPlan::Chunked(_) => panic!("expected a single upload"),
    }
}

#[test]
fn large_bundle_goes_in_described_chunks() {
    let config = TransferConfig { max_attempts: 2, chunk_size: 16 };
    let buffer: Vec<u8> = (0..40u8).collect();
    match post_data_to_server(buffer.clone(), &config) {
        UploadPlan::Chunked(chunks) => {
            assert_eq!(chunks.len(), 3);
            let hash = hash_buffer(&buffer);
            for (i, c) in chunks.iter().enumerate() {
                assert_eq!(c.params, ChunkParams { chunk_num: i, total_chunks: 3, total_size: 40 });
                assert_eq!(c.hash, hash);
            }
            let joined: Vec<u8> = chunks.iter().flat_map(|c| c.data.clone()).collect();
            assert_eq!(joined, buffer);
        }
        UploadPlan::Single(_) => panic!("expected chunks"),
    }
}

#[test]
fn standard_config_uses_the_defaults() {
    let c = TransferConfig::standard();
    assert_eq!(c.max_attempts, NUM_HTTP_RETRIES);
    assert_eq!(c.chunk_size, AVG_CHUNK_SIZE);
}

#[test]
fn chunk_uri_of_compressed_chunk() {
    let params = ChunkParams { chunk_num: 2, total_chunks: 5, total_size: 1234 };
    let uri = upload_chunk_uri("abc", &params, "ff00", true, &None);
    assert_eq!(
        uri,
        "/commits/abc/upload_chunk?chunk_num=2&total_size=1234&hash=ff00&total_chunks=5&is_compressed=true"
    );
}

#[test]
fn chunk_uri_of_plain_chunk_names_the_encoded_file() {
    let params = ChunkParams { chunk_num: 0, total_chunks: 1, total_size: 10 };
    let uri = upload_chunk_uri("abc", &params, "ff", false, &Some(String::from("my file/ä.csv")));
    assert_eq!(
        uri,
        "/commits/abc/upload_chunk?chunk_num=0&total_size=10&hash=ff&total_chunks=1&is_compressed=false&filename=my%20file%2F%C3%A4.csv"
    );
}

fn sending_session(units: usize, attempts: u32) -> PushSession {
    let mut s = PushSession::new(units, &TransferConfig { max_attempts: attempts, chunk_size: 16 });
    assert_eq!(s.start(), PushAction::PostMetadata);
    assert_eq!(s.on_event(PushEvent::MetadataPosted), PushAction::SendUnit { unit: 0 });
    s
}

#[test]
fn persistent_failure_aborts_after_the_retry_ceiling() {
    let mut s = sending_session(3, 2);
    assert_eq!(s.on_event(PushEvent::UnitSent), PushAction::SendUnit { unit: 1 });
    assert_eq!(s.on_event(PushEvent::UnitFailed), PushAction::RetryUnit { unit: 1, delay_secs: 1 });
    assert_eq!(s.on_event(PushEvent::UnitFailed), PushAction::Abort(OxenError::UploadFailed));
    assert_eq!(s.phase(), PushPhase::Failed);
    assert_eq!(s.on_event(PushEvent::UnitSent), PushAction::Nothing);
}

#[test]
fn backoff_grows_with_the_square_of_the_attempt() {
    let mut s = sending_session(1, 5);
    let delays: Vec<PushAction> = (0..4).map(|_| s.on_event(PushEvent::UnitFailed)).collect();
    assert_eq!(
        delays,
        vec![
            PushAction::RetryUnit { unit: 0, delay_secs: 1 },
            PushAction::RetryUnit { unit: 0, delay_secs: 4 },
            PushAction::RetryUnit { unit: 0, delay_secs: 9 },
            PushAction::RetryUnit { unit: 0, delay_secs: 16 },
        ]
    );
    assert_eq!(s.on_event(PushEvent::UnitFailed), PushAction::Abort(OxenError::UploadFailed));
}

#[test]
fn a_success_resets_the_failure_count() {
    let mut s = sending_session(2, 2);
    assert_eq!(s.on_event(PushEvent::UnitFailed), PushAction::RetryUnit { unit: 0, delay_secs: 1 });
    assert_eq!(s.on_event(PushEvent::UnitSent), PushAction::SendUnit { unit: 1 });
    assert_eq!(s.on_event(PushEvent::UnitFailed), PushAction::RetryUnit { unit: 1, delay_secs: 1 });
}

#[test]
fn full_push_reaches_synced() {
    let mut s = sending_session(2, 3);
    assert_eq!(s.on_event(PushEvent::UnitSent), PushAction::SendUnit { unit: 1 });
    assert_eq!(s.on_event(PushEvent::UnitSent), PushAction::SignalComplete);
    assert_eq!(s.phase(), PushPhase::DataUploaded);
    assert_eq!(s.on_event(PushEvent::CompletionPosted), PushAction::PollStatus);
    assert_eq!(s.on_event(PushEvent::StatusAbsent), PushAction::PollStatus);
    assert_eq!(s.phase(), PushPhase::RemoteProcessing);
    assert_eq!(s.on_event(PushEvent::StatusValid), PushAction::Finished);
    assert_eq!(s.phase(), PushPhase::Synced);
}

#[test]
fn invalid_verdict_ends_the_push_as_invalid() {
    let mut s = sending_session(1, 1);
    assert_eq!(s.on_event(PushEvent::UnitSent), PushAction::SignalComplete);
    assert_eq!(s.on_event(PushEvent::CompletionPosted), PushAction::PollStatus);
    assert_eq!(s.on_event(PushEvent::StatusInvalid), PushAction::Finished);
    assert_eq!(s.phase(), PushPhase::Invalid);
}

#[test]
fn failed_metadata_post_is_a_transport_failure() {
    let mut s = PushSession::new(1, &TransferConfig::standard());
    assert_eq!(s.on_event(PushEvent::RequestFailed), PushAction::Abort(OxenError::TransportFailure));
    assert_eq!(s.phase(), PushPhase::Failed);
}

#[test]
fn lookup_outcomes() {
    assert_eq!(interpret_lookup(false, 200, Some(1)), Err(OxenError::TransportFailure));
    assert_eq!(interpret_lookup(true, 404, Some(1)), Ok(None));
    assert_eq!(interpret_lookup::<i32>(true, 200, None), Err(OxenError::SerializationFailure));
    assert_eq!(interpret_lookup(true, 200, Some(7)), Ok(Some(7)));
}

#[test]
fn validity_is_absent_until_unpacking_finishes() {
    let mut remote = RemoteSyncStatus::new();
    assert_eq!(remote.commit_is_synced("c1"), None);
    remote.begin_processing("c1");
    assert_eq!(remote.commit_is_synced("c1"), None);
    remote.finish_processing("c1", true);
    assert_eq!(remote.commit_is_synced("c1"), Some(true));
    remote.begin_processing("c2");
    remote.finish_processing("c2", false);
    assert_eq!(remote.commit_is_synced("c2"), Some(false));
    assert_eq!(remote.commit_is_synced("c1"), Some(true));
}

#[test]
fn commit_query_gives_the_commit() {
    let q = CommitQuery {
        commit_id: String::from("abc"),
        parent_id: None,
        message: String::from("Hello"),
        author: String::from("Greg"),
        date: String::from("2022-01-01T00:00:00Z"),
    };
    let c = q.to_commit(1_640_995_200);
    assert_eq!(c.id, "abc");
    assert_eq!(c.message, "Hello");
    assert_eq!(c.author, "Greg");
    assert_eq!(c.parent_id, None);
    assert_eq!(c.timestamp, 1_640_995_200);
}

#[test]
fn malformed_answer_is_not_retried() {
    let mut s = sending_session(2, 5);
    assert_eq!(s.on_event(PushEvent::UnitMalformed), PushAction::Abort(OxenError::SerializationFailure));
    assert_eq!(s.phase(), PushPhase::Failed);
}
