use zfs_to_glacier::part_size::{select_buffer_size, MAX_S3_PART_COUNT, MIN_BUFFER_SIZE};
use zfs_to_glacier::retry::{Retry, RetryStep, MAX_ATTEMPTS};
use zfs_to_glacier::s3_utils::{
    CompletedPart, S3UploadFailedError, StorageClass, Tag, UploadContext, UploadError,
};
use zfs_to_glacier::upload::{
    upload_stdout, upload_stdout_internal, Action, Event, Phase, StoreRequest, Upload,
};
use zfs_to_glacier::upload_parts::{
    on_child_exit, part_request, worker_threads, ReaderStep, SentParts, UploadSession,
    BUFFER_CHANNEL_CAPACITY,
};

const MIN_MULTIPART_SIZE: usize = 5 * 1024 * 1024;
const TEST_MULTIPART_SIZE: usize = 1 * 1024 * 1024;
const TEST_ITERATIONS: usize = 9;

fn part(part_number: i64, e_tag: &str) -> CompletedPart {
    CompletedPart { part_number, e_tag: e_tag.to_string() }
}

fn failed(operation: &str, reason: &str) -> UploadError {
    UploadError::Failed(S3UploadFailedError(operation.to_string(), reason.to_string()))
}

/// Cuts a stream of `total` bytes into buffers of at most `buf_size` bytes,
/// as the reader fills them, and hands each to the session.
fn read_stream(session: &mut UploadSession, total: usize, buf_size: usize) -> Vec<i64> {
    let mut left = total;
    let mut numbers = Vec::new();
    loop {
        let bytes_read = left.min(buf_size);
        left -= bytes_read;
        match session.on_buffer(bytes_read) {
            Ok(ReaderStep::Submit { part_number, .. }) => numbers.push(part_number),
            Ok(ReaderStep::EndOfStream) => return numbers,
            Err(error) => panic!("{}", error.to_string()),
        }
    }
}

#[test]
fn buffer_size_doubles_until_parts_fit() {
    assert_eq!(MAX_S3_PART_COUNT, 10000);
    assert_eq!(MIN_BUFFER_SIZE, 8 * 1024 * 1024);
    assert_eq!(select_buffer_size(0), 8388608);
    assert_eq!(select_buffer_size(1), 8388608);
    assert_eq!(select_buffer_size(41943039999), 8388608);
    assert_eq!(select_buffer_size(41943040000), 16777216);
    assert_eq!(select_buffer_size(83886079999), 16777216);
    assert_eq!(select_buffer_size(83886080000), 33554432);
    assert_eq!(select_buffer_size(5 * 1024 * 1024 * 1024 * 1024), 2147483648);
}

#[test]
fn buffer_size_keeps_the_part_count_below_the_limit() {
    for estimated in [0usize, 1, 1 << 30, 1 << 40, 1 << 50, usize::MAX / 2, usize::MAX] {
        let buf_size = select_buffer_size(estimated) as u128;
        assert!(buf_size >= 8 * 1024 * 1024);
        assert!((estimated as u128 * 2) / buf_size < 10000);
        assert!(buf_size == 8 * 1024 * 1024 || (estimated as u128 * 2) / (buf_size / 2) >= 10000);
    }
}

#[test]
fn test_upload_short_file() {
    let content = "this is a test";
    let (upload, create) =
        upload_stdout("bucket", "test_key", vec![], StorageClass::STANDARD, 0);
    assert_eq!(
        create,
        StoreRequest::Create {
            bucket: "bucket".to_string(),
            key: "test_key".to_string(),
            storage_class: "STANDARD".to_string(),
            tagging: "buffer%5Fsize=8388608".to_string(),
        }
    );
    let (upload, action) = upload.on_event(Event::Created(Ok("id-1".to_string())));
    let context = match action {
        Action::SendParts(context) => context,
        other => panic!("{:?}", other),
    };
    assert_eq!(context.buf_size, 8388608);
    let mut session = UploadSession::new();
    assert_eq!(read_stream(&mut session, content.len(), context.buf_size), vec![1]);
    let request = part_request(&context, 1, content.as_bytes());
    assert_eq!(request.content_length, 14);
    assert_eq!(request.content_md5, "VLDFjHzp8qi1UTURAu4JOA==");
    assert_eq!(on_child_exit(true, "exit status: 0"), Ok(()));
    assert_eq!(session.on_completion(Ok(part(1, "etag-1"))), Ok(()));
    let sent = session.finish();
    assert_eq!(sent, Ok(SentParts { parts: vec![part(1, "etag-1")], bytes_sent: 14 }));
    let (upload, action) = upload.on_event(Event::PartsSent(sent));
    assert_eq!(
        action,
        Action::Call(StoreRequest::Complete {
            bucket: "bucket".to_string(),
            key: "test_key".to_string(),
            upload_id: "id-1".to_string(),
            parts: vec![part(1, "etag-1")],
        })
    );
    let (upload, action) = upload.on_event(Event::Completed(Ok(())));
    assert_eq!(action, Action::Return(Ok(14)));
    assert_eq!(upload.phase, Phase::Finished);
}

#[test]
fn test_upload_large_file() {
    let total = TEST_ITERATIONS * (TEST_MULTIPART_SIZE + 7);
    let mut session = UploadSession::new();
    assert_eq!(read_stream(&mut session, total, MIN_MULTIPART_SIZE), vec![1, 2]);
    assert_eq!(session.parts(), 2);
    assert_eq!(session.bytes_sent(), 0);
    assert_eq!(session.on_completion(Ok(part(2, "second"))), Ok(()));
    assert_eq!(session.bytes_sent() as usize, total - MIN_MULTIPART_SIZE);
    assert_eq!(session.on_completion(Ok(part(1, "first"))), Ok(()));
    let sent = session.finish().unwrap();
    assert_eq!(sent.parts, vec![part(1, "first"), part(2, "second")]);
    assert_eq!(sent.bytes_sent, ((1 * 1024 * 1024) + 7) * 9);
}

#[test]
fn test_very_upload_large_file() {
    let total = 30 * (TEST_MULTIPART_SIZE + 7);
    let mut session = UploadSession::new();
    let numbers = read_stream(&mut session, total, MIN_MULTIPART_SIZE);
    assert_eq!(numbers, vec![1, 2, 3, 4, 5, 6, 7]);
    for number in numbers.iter().rev() {
        assert_eq!(session.on_completion(Ok(part(*number, "t"))), Ok(()));
    }
    let sent = session.finish().unwrap();
    assert_eq!(sent.parts.iter().map(|p| p.part_number).collect::<Vec<i64>>(), numbers);
    assert_eq!(sent.bytes_sent, ((1 * 1024 * 1024) + 7) * 30);
}

#[test]
fn a_stream_makes_its_length_over_the_buffer_size_parts_rounded_up() {
    for (total, buf_size, parts) in
        [(0, 5, 0), (1, 5, 1), (4, 5, 1), (5, 5, 1), (6, 5, 2), (10, 5, 2), (11, 5, 3), (7, 1, 7)]
    {
        let mut session = UploadSession::new();
        let numbers = read_stream(&mut session, total, buf_size);
        assert_eq!(numbers, (1..=parts as i64).collect::<Vec<i64>>());
        assert_eq!(session.parts(), parts);
        assert_eq!(parts, (total + buf_size - 1) / buf_size);
        for number in numbers {
            assert_eq!(session.on_completion(Ok(part(number, "t"))), Ok(()));
        }
        let sent = session.finish().unwrap();
        assert_eq!(sent.parts.len(), parts);
        assert_eq!(sent.bytes_sent, total as u64);
    }
}

#[test]
fn the_parts_in_their_order_are_the_stream() {
    let stream: Vec<u8> = (0..23u8).collect();
    let mut session = UploadSession::new();
    let mut bodies: Vec<&[u8]> = Vec::new();
    for buffer in stream.chunks(5) {
        match session.on_buffer(buffer.len()) {
            Ok(ReaderStep::Submit { part_number, .. }) => {
                assert_eq!(part_number as usize, bodies.len() + 1);
                bodies.push(buffer);
            }
            other => panic!("{:?}", other.map_err(|error| error.to_string())),
        }
    }
    for number in [3, 1, 5, 2, 4] {
        assert_eq!(session.on_completion(Ok(part(number, "t"))), Ok(()));
    }
    let sent = session.finish().unwrap();
    let object: Vec<u8> = sent
        .parts
        .iter()
        .flat_map(|part| bodies[part.part_number as usize - 1].iter().copied())
        .collect();
    assert_eq!(object, stream);
    assert_eq!(sent.bytes_sent, 23);
}

#[test]
fn test_command_exit_failure() {
    let (upload, _) =
        upload_stdout_internal("bucket", "test_key", vec![], StorageClass::STANDARD, MIN_MULTIPART_SIZE);
    let (upload, _) = upload.on_event(Event::Created(Ok("id-1".to_string())));
    let r = on_child_exit(false, "exit status: 1");
    assert_eq!(r.is_err(), true);
    let error = r.unwrap_err();
    assert_eq!(
        error.to_string(),
        "S3 upload operation uploadparts failed with error: zfs command exited with error code exit status: 1"
    );
    let (upload, action) = upload.on_event(Event::PartsSent(Err(error.clone())));
    assert_eq!(
        action,
        Action::Call(StoreRequest::Abort {
            bucket: "bucket".to_string(),
            key: "test_key".to_string(),
            upload_id: "id-1".to_string(),
        })
    );
    let (upload, action) = upload.on_event(Event::Aborted(Err("abort failed".to_string())));
    assert_eq!(action, Action::Return(Err(error)));
    assert_eq!(upload.phase, Phase::Finished);
}

#[test]
fn a_failed_completion_aborts_the_upload() {
    let (upload, _) = upload_stdout_internal("bucket", "key", vec![], StorageClass::STANDARD, 5);
    let (upload, _) = upload.on_event(Event::Created(Ok("id-7".to_string())));
    let sent = SentParts { parts: vec![part(1, "a"), part(2, "b")], bytes_sent: 9 };
    let (upload, action) = upload.on_event(Event::PartsSent(Ok(sent)));
    assert_eq!(
        action,
        Action::Call(StoreRequest::Complete {
            bucket: "bucket".to_string(),
            key: "key".to_string(),
            upload_id: "id-7".to_string(),
            parts: vec![part(1, "a"), part(2, "b")],
        })
    );
    assert_eq!(upload.phase, Phase::Completing { upload_id: "id-7".to_string(), bytes_sent: 9 });
    let (upload, action) = upload.on_event(Event::Completed(Err("no more tries".to_string())));
    assert_eq!(
        action,
        Action::Call(StoreRequest::Abort {
            bucket: "bucket".to_string(),
            key: "key".to_string(),
            upload_id: "id-7".to_string(),
        })
    );
    let (upload, action) = upload.on_event(Event::Aborted(Ok(())));
    assert_eq!(action, Action::Return(Err(UploadError::Store("no more tries".to_string()))));
    assert_eq!(upload.phase, Phase::Finished);
}

#[test]
fn abort_success_also_returns_the_first_error() {
    let upload = Upload {
        bucket: "b".to_string(),
        key: "k".to_string(),
        buf_size: 1,
        phase: Phase::SendingParts { upload_id: "u".to_string() },
    };
    let cause = UploadError::Store("part 3 refused".to_string());
    let (upload, _) = upload.on_event(Event::PartsSent(Err(cause.clone())));
    assert_eq!(upload.phase, Phase::Aborting { cause: cause.clone() });
    let (_, action) = upload.on_event(Event::Aborted(Ok(())));
    assert_eq!(action, Action::Return(Err(cause)));
}

#[test]
fn create_and_complete_errors_end_the_upload() {
    let (upload, _) = upload_stdout_internal("b", "k", vec![], StorageClass::Glacier, 1);
    let (upload, action) = upload.on_event(Event::Created(Err("denied".to_string())));
    assert_eq!(action, Action::Return(Err(UploadError::Store("denied".to_string()))));
    assert_eq!(upload.phase, Phase::Finished);

    let completing = Upload {
        bucket: "b".to_string(),
        key: "k".to_string(),
        buf_size: 1,
        phase: Phase::Completing { upload_id: "u-9".to_string(), bytes_sent: 7 },
    };
    let (upload, action) = completing.on_event(Event::Completed(Err("late".to_string())));
    assert_eq!(
        action,
        Action::Call(StoreRequest::Abort {
            bucket: "b".to_string(),
            key: "k".to_string(),
            upload_id: "u-9".to_string(),
        })
    );
    assert_eq!(upload.phase, Phase::Aborting { cause: UploadError::Store("late".to_string()) });
    let (upload, action) = upload.on_event(Event::Aborted(Err("gone".to_string())));
    assert_eq!(action, Action::Return(Err(UploadError::Store("late".to_string()))));
    assert_eq!(upload.phase, Phase::Finished);
}

#[test]
fn an_event_out_of_turn_ends_the_upload() {
    let (upload, _) = upload_stdout_internal("b", "k", vec![], StorageClass::Glacier, 1);
    let (upload, action) = upload.on_event(Event::Completed(Ok(())));
    assert_eq!(action, Action::Return(Err(failed("upload", "an event came out of turn"))));
    let (upload, action) = upload.on_event(Event::Created(Ok("id".to_string())));
    assert_eq!(action, Action::Return(Err(failed("upload", "an event came out of turn"))));
    assert_eq!(upload.phase, Phase::Finished);
}

#[test]
fn create_request_carries_class_and_tags() {
    let tags = vec![
        Tag { key: "backup_cmd".to_string(), value: "zfs send -Pw p@s".to_string() },
        Tag { key: "parent".to_string(), value: "full".to_string() },
    ];
    let (upload, request) =
        upload_stdout_internal("zfs-rpool", "full/p_AT_s", tags, StorageClass::DeepArchive, 16777216);
    assert_eq!(upload.phase, Phase::Creating);
    assert_eq!(upload.buf_size, 16777216);
    assert_eq!(
        request,
        StoreRequest::Create {
            bucket: "zfs-rpool".to_string(),
            key: "full/p_AT_s".to_string(),
            storage_class: "DEEP_ARCHIVE".to_string(),
            tagging: "backup%5Fcmd=zfs%20send%20%2DPw%20p%40s&parent=full&buffer%5Fsize=16777216"
                .to_string(),
        }
    );
}

#[test]
fn storage_class_tokens() {
    assert_eq!(StorageClass::STANDARD.to_string(), "STANDARD");
    assert_eq!(StorageClass::Glacier.to_string(), "GLACIER");
    assert_eq!(StorageClass::DeepArchive.to_string(), "DEEP_ARCHIVE");
    assert_eq!(StorageClass::StandardInfrequentAccess.to_string(), "STANDARD_IA");
}

#[test]
fn part_numbers_count_from_one_without_gaps() {
    assert_eq!(BUFFER_CHANNEL_CAPACITY, 2);
    let mut session = UploadSession::new();
    for expected in 1..=50i64 {
        assert_eq!(
            session.on_buffer(3),
            Ok(ReaderStep::Submit { part_number: expected, progress: 0 })
        );
    }
    assert_eq!(session.on_buffer(0), Ok(ReaderStep::EndOfStream));
    assert_eq!(session.parts(), 50);
}

#[test]
fn progress_is_the_bytes_acknowledged() {
    let mut session = UploadSession::new();
    assert_eq!(session.on_buffer(10), Ok(ReaderStep::Submit { part_number: 1, progress: 0 }));
    assert_eq!(session.on_buffer(20), Ok(ReaderStep::Submit { part_number: 2, progress: 0 }));
    assert_eq!(session.on_completion(Ok(part(2, "b"))), Ok(()));
    assert_eq!(session.on_buffer(5), Ok(ReaderStep::Submit { part_number: 3, progress: 20 }));
    assert_eq!(session.on_completion(Ok(part(1, "a"))), Ok(()));
    assert_eq!(session.bytes_sent(), 30);
}

#[test]
fn the_store_limit_on_parts_is_kept() {
    let mut session = UploadSession::new();
    for _ in 0..10000 {
        assert!(session.on_buffer(1).is_ok());
    }
    assert_eq!(
        session.on_buffer(1),
        Err(failed("uploadparts", "the stream is too long for one upload"))
    );
    assert_eq!(session.parts(), 10000);
    assert_eq!(session.on_buffer(0), Ok(ReaderStep::EndOfStream));
}

#[test]
fn acknowledgements_must_be_awaited() {
    let mut session = UploadSession::new();
    session.on_buffer(4).unwrap();
    let unexpected = failed("uploadparts", "a part was acknowledged that is not awaited");
    assert_eq!(session.on_completion(Ok(part(2, "x"))), Err(unexpected.clone()));
    assert_eq!(session.on_completion(Ok(part(0, "x"))), Err(unexpected.clone()));
    assert_eq!(session.on_completion(Ok(part(-1, "x"))), Err(unexpected.clone()));
    assert_eq!(session.finish(), Err(failed("uploadparts", "a part was never acknowledged")));
    assert_eq!(session.on_completion(Ok(part(1, "x"))), Ok(()));
    assert_eq!(session.on_completion(Ok(part(1, "y"))), Err(unexpected));
    assert_eq!(
        session.on_completion(Err("connection reset".to_string())),
        Err(UploadError::Store("connection reset".to_string()))
    );
    assert_eq!(session.bytes_sent(), 4);
    assert_eq!(session.finish(), Ok(SentParts { parts: vec![part(1, "x")], bytes_sent: 4 }));
}

#[test]
fn an_empty_stream_has_no_parts() {
    let mut session = UploadSession::new();
    assert_eq!(session.on_buffer(0), Ok(ReaderStep::EndOfStream));
    assert_eq!(session.finish(), Ok(SentParts { parts: vec![], bytes_sent: 0 }));
}

#[test]
fn part_request_names_upload_length_and_digest() {
    let context = UploadContext {
        bucket: "b".to_string(),
        key: "k".to_string(),
        upload_id: "u".to_string(),
        buf_size: 8,
    };
    let request = part_request(&context, 3, b"hello world");
    assert_eq!(request.bucket, "b");
    assert_eq!(request.key, "k");
    assert_eq!(request.upload_id, "u");
    assert_eq!(request.part_number, 3);
    assert_eq!(request.content_length, 11);
    assert_eq!(request.content_md5, "XrY7u+Ae7tCTyyK7j1rNww==");
    assert_eq!(part_request(&context, 3, b"hello world"), request);
}

#[test]
fn retry_pauses_twice_the_attempt() {
    assert_eq!(MAX_ATTEMPTS, 20);
    let mut retry = Retry::new();
    for attempt in 1..20u64 {
        assert_eq!(retry.current_attempt(), attempt);
        assert_eq!(retry.next(false), RetryStep::RetryAfter { seconds: attempt * 2 });
    }
    assert_eq!(retry.current_attempt(), 20);
    assert_eq!(retry.next(false), RetryStep::GiveUp);
    assert_eq!(retry.current_attempt(), 20);
}

#[test]
fn retry_succeeds_after_failures() {
    for failures in 0..20u64 {
        let mut retry = Retry::new();
        let mut paused = 0;
        for _ in 0..failures {
            match retry.next(false) {
                RetryStep::RetryAfter { seconds } => paused += seconds,
                other => panic!("{:?}", other),
            }
        }
        assert_eq!(retry.next(true), RetryStep::Done);
        assert_eq!(retry.current_attempt(), failures + 1);
        assert_eq!(paused, failures * (failures + 1));
    }
}

#[test]
fn errors_read_as_the_user_sees_them() {
    assert_eq!(
        S3UploadFailedError("uploadparts".to_string(), "why".to_string()).to_string(),
        "S3 upload operation uploadparts failed with error: why"
    );
    assert_eq!(UploadError::Store("the store's words".to_string()).to_string(), "the store's words");
}

#[test]
fn at_least_two_worker_threads() {
    assert_eq!(worker_threads(0), 2);
    assert_eq!(worker_threads(1), 2);
    assert_eq!(worker_threads(2), 2);
    assert_eq!(worker_threads(16), 16);
}
