use archivur::error::ErrorKind;
use archivur::job::Job;
use archivur::protocol::{
    Action, ArchiveRequest, ConfigError, Event, JobConfig, Phase, Reply,
};
use archivur::partition::{StoreLimits, UploadPart, DEFAULT_PART_SIZE};
use archivur::upload::CompletedPart;
use std::collections::HashMap;
use std::io::{Cursor, Read};
use zip::ZipArchive;

fn config(part_size: u64) -> JobConfig {
    JobConfig {
        source_bucket: "files".to_string(),
        dest_bucket: "archives".to_string(),
        dest_key: "result.zip".to_string(),
        limits: StoreLimits::new(1, 1 << 30, 1000).unwrap(),
        part_size,
    }
}

fn request(keys: &[&str]) -> ArchiveRequest {
    ArchiveRequest { keys: keys.iter().map(|k| k.to_string()).collect() }
}

fn job(keys: &[&str], part_size: u64) -> Job {
    Job::new(config(part_size), request(keys)).unwrap()
}

fn objects(list: &[(&str, &[u8])]) -> HashMap<String, Vec<u8>> {
    list.iter().map(|(k, v)| (k.to_string(), v.to_vec())).collect()
}

fn read_back(bytes: Vec<u8>) -> Vec<(String, Vec<u8>)> {
    let mut archive = ZipArchive::new(Cursor::new(bytes)).unwrap();
    let mut out = Vec::new();
    for i in 0..archive.len() {
        let mut file = archive.by_index(i).unwrap();
        let mut body = Vec::new();
        file.read_to_end(&mut body).unwrap();
        out.push((file.name().to_string(), body));
    }
    out
}

/// What a run did to the store.
#[derive(Default)]
struct Trace {
    fetch_all: u32,
    creates: u32,
    completes: u32,
    aborts: u32,
    part_count: usize,
    completed_numbers: Vec<u32>,
    stored: Option<Vec<u8>>,
}

/// Feeds the outcomes of the retrievals, in the order given, up to the
/// closing of the channel.
fn fetch(mut job: Job, store: &HashMap<String, Vec<u8>>, arrival: &[&str]) -> (Job, Action) {
    for key in arrival {
        let (next, action) = match store.get(*key) {
            Some(body) => {
                let (mut next, mut action) = job.step(Event::Fetched { key: key.to_string() });
                for chunk in body.chunks(3) {
                    if next.is_terminal() {
                        break;
                    }
                    let (n, a) = next.step(Event::Chunk { bytes: chunk.to_vec() });
                    next = n;
                    action = a;
                }
                (next, action)
            },
            None => {
                job.step(Event::FetchFailed { key: key.to_string(), kind: ErrorKind::NotFound })
            },
        };
        job = next;
        if job.is_terminal() {
            return (job, action);
        }
    }
    job.step(Event::FetchClosed)
}

/// Runs a job against a store held in memory. Parts report in the order
/// that `report_order` makes of them; the parts in `failing` fail.
fn run(
    job: Job,
    store: &HashMap<String, Vec<u8>>,
    arrival: &[&str],
    report_order: fn(&mut Vec<UploadPart>),
    failing: &[u32],
) -> (Job, Reply, Trace) {
    let mut trace = Trace::default();
    let (job, action) = job.step(Event::Start);
    match action {
        Action::FetchAll { bucket, keys } => {
            assert_eq!(bucket, "files");
            let mut asked: Vec<String> = keys;
            let mut owed: Vec<String> = arrival.iter().map(|k| k.to_string()).collect();
            asked.sort();
            owed.sort();
            assert_eq!(asked, owed);
            trace.fetch_all += 1;
        },
        other => panic!("expected the retrievals, got {:?}", other),
    }
    assert_eq!(job.phase(), Phase::Fetching);
    let (mut job, mut action) = fetch(job, store, arrival);
    let mut uploaded: HashMap<u32, Vec<u8>> = HashMap::new();
    loop {
        let event = match action {
            Action::Respond { reply } => return (job, reply, trace),
            Action::CreateUpload { bucket, key } => {
                assert_eq!(bucket, "archives");
                assert_eq!(key, "result.zip");
                assert_eq!(job.phase(), Phase::Partitioning);
                trace.creates += 1;
                Event::UploadCreated { upload_id: Some("upload-7".to_string()) }
            },
            Action::UploadParts { bucket, key, upload_id, parts } => {
                assert_eq!(bucket, "archives");
                assert_eq!(key, "result.zip");
                assert_eq!(upload_id, "upload-7");
                assert_eq!(job.phase(), Phase::Uploading);
                let mut parts = parts;
                trace.part_count = parts.len();
                report_order(&mut parts);
                let mut last = Action::Continue;
                for part in parts {
                    let event = if failing.contains(&part.part_number) {
                        Event::PartFailed {
                            part_number: part.part_number,
                            kind: ErrorKind::TransportError,
                        }
                    } else {
                        let tag = format!("etag-{}", part.part_number);
                        uploaded.insert(part.part_number, part.bytes);
                        Event::PartUploaded {
                            part: CompletedPart { part_number: part.part_number, entity_tag: tag },
                        }
                    };
                    let (next, a) = job.step(event);
                    job = next;
                    last = a;
                }
                action = last;
                continue;
            },
            Action::Complete { bucket, key, upload_id, parts } => {
                assert_eq!(bucket, "archives");
                assert_eq!(key, "result.zip");
                assert_eq!(upload_id, "upload-7");
                trace.completes += 1;
                let mut stored = Vec::new();
                for part in &parts {
                    assert_eq!(part.entity_tag, format!("etag-{}", part.part_number));
                    stored.extend_from_slice(&uploaded[&part.part_number]);
                }
                trace.completed_numbers = parts.iter().map(|p| p.part_number).collect();
                trace.stored = Some(stored);
                Event::Completed
            },
            Action::Abort { bucket, key, upload_id } => {
                assert_eq!(bucket, "archives");
                assert_eq!(key, "result.zip");
                assert_eq!(upload_id, "upload-7");
                trace.aborts += 1;
                Event::Aborted
            },
            other => panic!("nothing to do for {:?}", other),
        };
        let (next, a) = job.step(event);
        job = next;
        action = a;
    }
}

fn in_order(_parts: &mut Vec<UploadPart>) {
}

fn reversed(parts: &mut Vec<UploadPart>) {
    parts.reverse();
}

fn rotated(parts: &mut Vec<UploadPart>) {
    if parts.len() > 1 {
        let n = parts.len() / 2;
        parts.rotate_left(n);
    }
}

#[test]
fn two_existing_keys_are_archived_and_stored() {
    let store = objects(&[("a.txt", b"alpha alpha alpha"), ("b.txt", b"beta")]);
    let (job, reply, trace) =
        run(job(&["a.txt", "b.txt"], 64), &store, &["a.txt", "b.txt"], in_order, &[]);
    match &reply {
        Reply::Stored { key } => assert_eq!(key, "result.zip"),
        other => panic!("expected the archive, got {:?}", other),
    }
    assert_eq!(reply.status(), 200);
    assert_eq!(job.phase(), Phase::Completed);
    assert_eq!(job.failure(), None);
    assert!(job.is_terminal());
    assert_eq!((trace.creates, trace.completes, trace.aborts), (1, 1, 0));
    assert!(trace.part_count > 1);
    let expected: Vec<u32> = (1..=trace.part_count as u32).collect();
    assert_eq!(trace.completed_numbers, expected);
    assert_eq!(
        read_back(trace.stored.unwrap()),
        vec![
            ("a.txt".to_string(), b"alpha alpha alpha".to_vec()),
            ("b.txt".to_string(), b"beta".to_vec()),
        ]
    );
}

#[test]
fn entries_follow_the_order_of_arrival() {
    let store = objects(&[("a.txt", b"alpha"), ("b.txt", b"beta"), ("c.txt", b"")]);
    let (_, reply, trace) = run(
        job(&["a.txt", "b.txt", "c.txt"], 50),
        &store,
        &["c.txt", "a.txt", "b.txt"],
        reversed,
        &[],
    );
    assert_eq!(reply.status(), 200);
    let expected: Vec<u32> = (1..=trace.part_count as u32).collect();
    assert_eq!(trace.completed_numbers, expected);
    assert_eq!(
        read_back(trace.stored.unwrap()),
        vec![
            ("c.txt".to_string(), Vec::new()),
            ("a.txt".to_string(), b"alpha".to_vec()),
            ("b.txt".to_string(), b"beta".to_vec()),
        ]
    );
}

#[test]
fn a_key_requested_twice_is_archived_twice() {
    let store = objects(&[("a.txt", b"alpha")]);
    let (_, reply, trace) =
        run(job(&["a.txt", "a.txt"], 1 << 20), &store, &["a.txt", "a.txt"], in_order, &[]);
    assert_eq!(reply.status(), 200);
    assert_eq!(trace.part_count, 1);
    assert_eq!(
        read_back(trace.stored.unwrap()),
        vec![("a.txt".to_string(), b"alpha".to_vec()), ("a.txt".to_string(), b"alpha".to_vec())]
    );
}

#[test]
fn completion_lists_parts_in_order_for_any_arrival() {
    let body: Vec<u8> = (0..5000u32).map(|i| (i * 7 % 256) as u8).collect();
    let store = objects(&[("big.bin", &body)]);
    let orders: [fn(&mut Vec<UploadPart>); 3] = [in_order, reversed, rotated];
    for order in orders {
        let (_, reply, trace) = run(job(&["big.bin"], 100), &store, &["big.bin"], order, &[]);
        assert_eq!(reply.status(), 200);
        assert!(trace.part_count > 3);
        let expected: Vec<u32> = (1..=trace.part_count as u32).collect();
        assert_eq!(trace.completed_numbers, expected);
        assert_eq!(read_back(trace.stored.unwrap()), vec![("big.bin".to_string(), body.clone())]);
    }
}

#[test]
fn a_missing_key_fails_the_job_as_not_found() {
    let store = objects(&[]);
    let (job, reply, trace) =
        run(job(&["missing.txt"], 64), &store, &["missing.txt"], in_order, &[]);
    match &reply {
        Reply::Failed { kind } => assert_eq!(*kind, ErrorKind::NotFound),
        other => panic!("expected a failure, got {:?}", other),
    }
    assert_eq!(reply.status(), 404);
    assert_eq!(job.phase(), Phase::Failed);
    assert_eq!(job.failure(), Some(ErrorKind::NotFound));
    assert_eq!((trace.creates, trace.completes, trace.aborts), (0, 0, 0));
    assert!(trace.stored.is_none());
}

#[test]
fn one_missing_key_among_others_fails_the_job() {
    let store = objects(&[("a.txt", b"alpha"), ("c.txt", b"gamma")]);
    let (job, reply, trace) = run(
        job(&["a.txt", "b.txt", "c.txt"], 64),
        &store,
        &["a.txt", "b.txt", "c.txt"],
        in_order,
        &[],
    );
    assert_eq!(reply.status(), 404);
    assert_eq!(job.failure(), Some(ErrorKind::NotFound));
    assert_eq!((trace.creates, trace.completes, trace.aborts), (0, 0, 0));
    assert!(trace.stored.is_none());
}

#[test]
fn a_failed_part_aborts_the_upload() {
    let store = objects(&[("a.txt", b"alpha"), ("b.txt", b"beta"), ("c.txt", b"gamma")]);
    let keys = ["a.txt", "b.txt", "c.txt"];
    // Learn the length of the archive, then ask for three parts.
    let (_, _, whole) = run(job(&keys, 1 << 20), &store, &keys, in_order, &[]);
    let len = whole.stored.unwrap().len() as u64;
    let part_size = (len + 2) / 3;
    let (job, reply, trace) = run(job(&keys, part_size), &store, &keys, in_order, &[2]);
    assert_eq!(trace.part_count, 3);
    match &reply {
        Reply::Failed { kind } => assert_eq!(*kind, ErrorKind::TransportError),
        other => panic!("expected a failure, got {:?}", other),
    }
    assert_eq!(reply.status(), 500);
    assert_eq!(job.phase(), Phase::Failed);
    assert_eq!((trace.creates, trace.completes, trace.aborts), (1, 0, 1));
    assert!(trace.stored.is_none());
}

#[test]
fn the_upload_is_aborted_only_when_every_part_has_reported() {
    let body: Vec<u8> = (0..2000u32).map(|i| (i % 256) as u8).collect();
    let store = objects(&[("big.bin", &body)]);
    let job = job(&["big.bin"], 100);
    let (job, _) = job.step(Event::Start);
    let (job, action) = fetch(job, &store, &["big.bin"]);
    assert!(matches!(action, Action::CreateUpload { .. }));
    let (mut job, action) = job.step(Event::UploadCreated { upload_id: Some("u".to_string()) });
    let parts = match action {
        Action::UploadParts { parts, .. } => parts,
        other => panic!("expected the parts, got {:?}", other),
    };
    let count = parts.len() as u32;
    assert!(count > 2);
    for n in 1..=count {
        let event = if n == 1 {
            Event::PartFailed { part_number: n, kind: ErrorKind::NotFound }
        } else {
            Event::PartUploaded {
                part: CompletedPart { part_number: n, entity_tag: "t".to_string() },
            }
        };
        let (next, action) = job.step(event);
        job = next;
        if n < count {
            assert!(matches!(action, Action::Continue));
            assert_eq!(job.phase(), Phase::Uploading);
        } else {
            assert!(matches!(action, Action::Abort { .. }));
        }
    }
    // The call that ends the upload is made once; later reports change nothing.
    let (job, action) = job.step(Event::PartUploaded {
        part: CompletedPart { part_number: 1, entity_tag: "late".to_string() },
    });
    assert!(matches!(action, Action::Continue));
    let (job, action) = job.step(Event::Completed);
    assert!(matches!(action, Action::Continue));
    let (job, action) = job.step(Event::Aborted);
    // What the store refused on a write is never a missing key.
    match action {
        Action::Respond { reply: Reply::Failed { kind } } => {
            assert_eq!(kind, ErrorKind::ServiceError)
        },
        other => panic!("expected the answer, got {:?}", other),
    }
    assert_eq!(job.failure(), Some(ErrorKind::ServiceError));
}

#[test]
fn reports_that_are_not_owed_change_nothing() {
    let store = objects(&[("a.txt", b"alpha")]);
    let job = job(&["a.txt"], 1 << 20);
    let (job, _) = job.step(Event::Start);
    let (job, _) = fetch(job, &store, &["a.txt"]);
    let (job, action) = job.step(Event::UploadCreated { upload_id: Some("u".to_string()) });
    let parts = match action {
        Action::UploadParts { parts, .. } => parts,
        other => panic!("expected the parts, got {:?}", other),
    };
    assert_eq!(parts.len(), 1);
    let (job, action) = job.step(Event::PartUploaded {
        part: CompletedPart { part_number: 2, entity_tag: "x".to_string() },
    });
    assert!(matches!(action, Action::Continue));
    let (job, action) = job.step(Event::PartFailed { part_number: 0, kind: ErrorKind::ServiceError });
    assert!(matches!(action, Action::Continue));
    let (job, action) = job.step(Event::PartUploaded {
        part: CompletedPart { part_number: 1, entity_tag: "e1".to_string() },
    });
    match action {
        Action::Complete { parts, .. } => {
            assert_eq!(parts.len(), 1);
            assert_eq!(parts[0].part_number, 1);
            assert_eq!(parts[0].entity_tag, "e1");
        },
        other => panic!("expected the completion, got {:?}", other),
    }
    assert_eq!(job.phase(), Phase::Uploading);
}

#[test]
fn the_first_failure_decides_the_class() {
    let job = job(&["a.txt", "b.txt"], 64);
    let (job, _) = job.step(Event::Start);
    let (job, action) = job.step(Event::FetchFailed {
        key: "a.txt".to_string(),
        kind: ErrorKind::TransportError,
    });
    assert!(matches!(
        action,
        Action::Respond { reply: Reply::Failed { kind: ErrorKind::TransportError } }
    ));
    // What arrives later is discarded.
    let (job, action) = job.step(Event::FetchFailed {
        key: "b.txt".to_string(),
        kind: ErrorKind::NotFound,
    });
    assert!(matches!(action, Action::Continue));
    let (job, action) = job.step(Event::Fetched { key: "b.txt".to_string() });
    assert!(matches!(action, Action::Continue));
    let (job, action) = job.step(Event::FetchClosed);
    assert!(matches!(action, Action::Continue));
    assert_eq!(job.failure(), Some(ErrorKind::TransportError));
    assert_eq!(job.phase(), Phase::Failed);
}

#[test]
fn an_outcome_that_was_not_requested_fails_the_job() {
    let job = job(&["a.txt"], 64);
    let (job, _) = job.step(Event::Start);
    let (job, action) = job.step(Event::Fetched { key: "other.txt".to_string() });
    assert!(matches!(
        action,
        Action::Respond { reply: Reply::Failed { kind: ErrorKind::InternalError } }
    ));
    assert_eq!(job.failure(), Some(ErrorKind::InternalError));
}

#[test]
fn a_second_outcome_for_one_key_fails_the_job() {
    let job = job(&["a.txt"], 64);
    let (job, _) = job.step(Event::Start);
    let (job, action) = job.step(Event::Fetched { key: "a.txt".to_string() });
    assert!(matches!(action, Action::Continue));
    assert_eq!(job.phase(), Phase::Assembling);
    let (job, action) = job.step(Event::Fetched { key: "a.txt".to_string() });
    assert!(matches!(
        action,
        Action::Respond { reply: Reply::Failed { kind: ErrorKind::InternalError } }
    ));
    assert_eq!(job.phase(), Phase::Failed);
}

#[test]
fn a_chunk_without_an_entry_fails_the_job() {
    let job = job(&["a.txt"], 64);
    let (job, _) = job.step(Event::Start);
    let (job, action) = job.step(Event::Chunk { bytes: vec![1, 2, 3] });
    assert!(matches!(
        action,
        Action::Respond { reply: Reply::Failed { kind: ErrorKind::InternalError } }
    ));
    assert_eq!(job.phase(), Phase::Failed);
}

#[test]
fn a_missing_outcome_fails_the_job() {
    let store = objects(&[("a.txt", b"alpha")]);
    let job = job(&["a.txt", "b.txt"], 64);
    let (job, _) = job.step(Event::Start);
    let (job, action) = fetch(job, &store, &["a.txt"]);
    assert!(matches!(
        action,
        Action::Respond { reply: Reply::Failed { kind: ErrorKind::InternalError } }
    ));
    assert_eq!(job.phase(), Phase::Failed);
}

#[test]
fn no_upload_id_fails_the_job() {
    let store = objects(&[("a.txt", b"alpha")]);
    let job = job(&["a.txt"], 64);
    let (job, _) = job.step(Event::Start);
    let (job, _) = fetch(job, &store, &["a.txt"]);
    let (job, action) = job.step(Event::UploadCreated { upload_id: None });
    assert!(matches!(
        action,
        Action::Respond { reply: Reply::Failed { kind: ErrorKind::ServiceError } }
    ));
    assert_eq!(job.phase(), Phase::Failed);
}

#[test]
fn a_refused_upload_fails_the_job() {
    let store = objects(&[("a.txt", b"alpha")]);
    let job = job(&["a.txt"], 64);
    let (job, _) = job.step(Event::Start);
    let (job, _) = fetch(job, &store, &["a.txt"]);
    let (job, action) = job.step(Event::UploadRefused { kind: ErrorKind::TransportError });
    assert!(matches!(
        action,
        Action::Respond { reply: Reply::Failed { kind: ErrorKind::TransportError } }
    ));
    assert_eq!(job.failure(), Some(ErrorKind::TransportError));
}

#[test]
fn a_failed_completion_fails_the_job() {
    let store = objects(&[("a.txt", b"alpha")]);
    let job = job(&["a.txt"], 1 << 20);
    let (job, _) = job.step(Event::Start);
    let (job, _) = fetch(job, &store, &["a.txt"]);
    let (job, _) = job.step(Event::UploadCreated { upload_id: Some("u".to_string()) });
    let (job, action) = job.step(Event::PartUploaded {
        part: CompletedPart { part_number: 1, entity_tag: "e".to_string() },
    });
    assert!(matches!(action, Action::Complete { .. }));
    let (job, action) = job.step(Event::CompleteFailed { kind: ErrorKind::ServiceError });
    assert!(matches!(
        action,
        Action::Respond { reply: Reply::Failed { kind: ErrorKind::ServiceError } }
    ));
    assert_eq!(job.phase(), Phase::Failed);
}

#[test]
fn an_empty_request_stores_an_empty_archive() {
    let store = objects(&[]);
    let (_, reply, trace) = run(job(&[], 1 << 20), &store, &[], in_order, &[]);
    assert_eq!(reply.status(), 200);
    assert_eq!((trace.creates, trace.completes, trace.aborts), (1, 1, 0));
    assert!(read_back(trace.stored.unwrap()).is_empty());
}

#[test]
fn events_out_of_turn_change_nothing() {
    let job = job(&["a.txt"], 64);
    assert_eq!(job.phase(), Phase::Dispatched);
    let (job, action) = job.step(Event::FetchClosed);
    assert!(matches!(action, Action::Continue));
    let (job, action) = job.step(Event::Fetched { key: "a.txt".to_string() });
    assert!(matches!(action, Action::Continue));
    let (job, action) = job.step(Event::Aborted);
    assert!(matches!(action, Action::Continue));
    assert_eq!(job.phase(), Phase::Dispatched);
    let (job, action) = job.step(Event::Start);
    assert!(matches!(action, Action::FetchAll { .. }));
    let (job, action) = job.step(Event::Start);
    assert!(matches!(action, Action::Continue));
    let (job, action) = job.step(Event::UploadCreated { upload_id: Some("u".to_string()) });
    assert!(matches!(action, Action::Continue));
    assert_eq!(job.phase(), Phase::Fetching);
}

#[test]
fn cancelling_before_the_upload_fails_the_job() {
    let job = job(&["a.txt"], 64);
    let (job, _) = job.step(Event::Start);
    let (job, _) = job.step(Event::Fetched { key: "a.txt".to_string() });
    let (job, action) = job.step(Event::Cancelled);
    assert!(matches!(
        action,
        Action::Respond { reply: Reply::Failed { kind: ErrorKind::InternalError } }
    ));
    assert_eq!(job.phase(), Phase::Failed);
}

#[test]
fn cancelling_while_the_upload_is_created_aborts_it_once_named() {
    let store = objects(&[("a.txt", b"alpha")]);
    let job = job(&["a.txt"], 64);
    let (job, _) = job.step(Event::Start);
    let (job, _) = fetch(job, &store, &["a.txt"]);
    let (job, action) = job.step(Event::Cancelled);
    assert!(matches!(action, Action::Continue));
    assert_eq!(job.phase(), Phase::Partitioning);
    let (job, action) = job.step(Event::UploadCreated { upload_id: Some("u-9".to_string()) });
    match action {
        Action::Abort { bucket, key, upload_id } => {
            assert_eq!(bucket, "archives");
            assert_eq!(key, "result.zip");
            assert_eq!(upload_id, "u-9");
        },
        other => panic!("expected the abort, got {:?}", other),
    }
    let (job, action) = job.step(Event::Aborted);
    assert!(matches!(
        action,
        Action::Respond { reply: Reply::Failed { kind: ErrorKind::InternalError } }
    ));
    assert_eq!(job.phase(), Phase::Failed);
}

#[test]
fn cancelling_an_open_upload_aborts_it() {
    let body: Vec<u8> = (0..1000u32).map(|i| (i % 256) as u8).collect();
    let store = objects(&[("big.bin", &body)]);
    let job = job(&["big.bin"], 100);
    let (job, _) = job.step(Event::Start);
    let (job, _) = fetch(job, &store, &["big.bin"]);
    let (job, _) = job.step(Event::UploadCreated { upload_id: Some("u".to_string()) });
    let (job, _) = job.step(Event::PartUploaded {
        part: CompletedPart { part_number: 1, entity_tag: "e".to_string() },
    });
    let (job, action) = job.step(Event::Cancelled);
    assert!(matches!(action, Action::Abort { .. }));
    let (job, action) = job.step(Event::Cancelled);
    assert!(matches!(action, Action::Continue));
    let (job, action) = job.step(Event::Aborted);
    assert!(matches!(
        action,
        Action::Respond { reply: Reply::Failed { kind: ErrorKind::InternalError } }
    ));
    assert!(job.is_terminal());
}

#[test]
fn a_configuration_outside_the_limits_is_refused() {
    let mut bad = config(64);
    bad.limits = StoreLimits::s3();
    assert_eq!(Job::new(bad, request(&["a"])).err(), Some(ConfigError::PartSizeTooSmall));
    let mut bad = config(64);
    bad.limits = StoreLimits::s3();
    bad.part_size = 6_000_000_000;
    assert_eq!(Job::new(bad, request(&["a"])).err(), Some(ConfigError::PartSizeTooLarge));
    let mut bad = config(64);
    bad.limits = StoreLimits { min_part_size: 0, max_part_size: 10, max_part_count: 1 };
    assert_eq!(Job::new(bad, request(&["a"])).err(), Some(ConfigError::Limits));
    let mut good = config(DEFAULT_PART_SIZE);
    good.limits = StoreLimits::s3();
    assert!(Job::new(good, request(&["a"])).is_ok());
}

#[test]
fn an_archive_beyond_the_limits_fails_the_job() {
    let store = objects(&[("a.txt", b"alpha alpha alpha alpha alpha alpha")]);
    let mut small = config(4);
    small.limits = StoreLimits::new(4, 8, 2).unwrap();
    let job = Job::new(small, request(&["a.txt"])).unwrap();
    let (job, _) = job.step(Event::Start);
    let (job, action) = fetch(job, &store, &["a.txt"]);
    assert!(matches!(
        action,
        Action::Respond { reply: Reply::Failed { kind: ErrorKind::InternalError } }
    ));
    assert_eq!(job.phase(), Phase::Failed);
}

#[test]
fn phases_have_an_end() {
    assert!(!Phase::Dispatched.is_terminal());
    assert!(!Phase::Fetching.is_terminal());
    assert!(!Phase::Assembling.is_terminal());
    assert!(!Phase::Partitioning.is_terminal());
    assert!(!Phase::Uploading.is_terminal());
    assert!(Phase::Completed.is_terminal());
    assert!(Phase::Failed.is_terminal());
}

#[test]
fn replies_have_a_status() {
    assert_eq!(Reply::Stored { key: "k".to_string() }.status(), 200);
    assert_eq!(Reply::Failed { kind: ErrorKind::NotFound }.status(), 404);
    assert_eq!(Reply::Failed { kind: ErrorKind::ServiceError }.status(), 500);
    assert_eq!(Reply::Failed { kind: ErrorKind::TransportError }.status(), 500);
    assert_eq!(Reply::Failed { kind: ErrorKind::InternalError }.status(), 500);
}

#[test]
fn an_answer_with_a_tag_reports_the_upload() {
    match Event::part_answered(3, Some("etag-3".to_string())) {
        Event::PartUploaded { part } => {
            assert_eq!(part.part_number, 3);
            assert_eq!(part.entity_tag, "etag-3");
        },
        other => panic!("expected an upload, got {:?}", other),
    }
}

#[test]
fn an_answer_without_a_tag_reports_a_failure() {
    match Event::part_answered(3, None) {
        Event::PartFailed { part_number, kind } => {
            assert_eq!(part_number, 3);
            assert_eq!(kind, ErrorKind::ServiceError);
        },
        other => panic!("expected a failure, got {:?}", other),
    }
}

#[test]
fn a_part_without_a_tag_aborts_the_upload() {
    let store = objects(&[("a.txt", b"alpha")]);
    let job = job(&["a.txt"], 1 << 20);
    let (job, _) = job.step(Event::Start);
    let (job, _) = fetch(job, &store, &["a.txt"]);
    let (job, _) = job.step(Event::UploadCreated { upload_id: Some("u".to_string()) });
    let (job, action) = job.step(Event::part_answered(1, None));
    assert!(matches!(action, Action::Abort { .. }));
    let (job, action) = job.step(Event::Aborted);
    assert!(matches!(
        action,
        Action::Respond { reply: Reply::Failed { kind: ErrorKind::ServiceError } }
    ));
    assert_eq!(job.phase(), Phase::Failed);
}

#[test]
fn a_key_too_long_for_the_archive_fails_the_job() {
    let key = "k".repeat(65_536);
    let job = job(&[key.as_str()], 64);
    let (job, _) = job.step(Event::Start);
    let (job, action) = job.step(Event::Fetched { key });
    assert!(matches!(
        action,
        Action::Respond { reply: Reply::Failed { kind: ErrorKind::InternalError } }
    ));
    assert_eq!(job.phase(), Phase::Failed);
}
