use std::num::NonZeroU32;

use drop_core::error::Error;
use drop_core::manager::{FinishedPath, TransferManager, TransferToResume};
use drop_core::server::{
    connection_verdict, ensure_resume_matches_existing_transfer, init_client_handler,
    next_source, terminal_event, Event, FileStream, FileXferTask, InitOutcome, LoopSource,
    ServerReq, Verdict, Version, REPORT_PROGRESS_THRESHOLD,
};
use drop_core::sync::{FileState, SyncStore, TransferState};
use drop_core::transfer::{
    FileToRecv, IncomingFileInfo, IncomingTransfer, IncomingTransferInfo, OutgoingTransfer,
};

fn one_file_xfer(tid: u128, peer: &str, id: &str, size: u64) -> IncomingTransfer {
    let files = vec![FileToRecv::new(id.to_string(), vec![id.to_string()], size)];
    IncomingTransfer::new_with_uuid(peer.to_string(), files, tid)
}

#[test]
fn single_file_accept() {
    let mut store = SyncStore::new();
    let mut manager = TransferManager::new();
    let tid = uuid::Uuid::parse_str("11111111-1111-1111-1111-111111111111")
        .unwrap()
        .as_u128();
    let xfer = one_file_xfer(tid, "192.168.0.2", "a", 10);
    let xfer_copy = xfer.duplicate();
    let (tx, mut rx) = tokio::sync::mpsc::unbounded_channel();

    // a proposal without sync rows is a new transfer: the embedder is to
    // be told of the request
    let out = init_client_handler(&mut store, &mut manager, xfer, None, tx).unwrap();
    assert!(matches!(out, InitOutcome::NewTransfer));
    let t = store.transfer_state(tid).unwrap();
    assert!(matches!(t.local_state, TransferState::New));
    assert!(rx.try_recv().is_err());

    // the peer streams the declared ten bytes
    let mut fs = FileStream::begin(0, 10);
    assert!(!fs.is_complete());
    let emit = fs.on_chunk(10).unwrap();
    assert!(!emit);
    assert!(fs.is_complete());

    // the file is placed at dest/a
    let task = FileXferTask::new(
        xfer_copy.files[0].duplicate(),
        xfer_copy,
        "dest".to_string(),
    );
    let abs = task.prepare_abs_path(&mut manager, &vec![]).unwrap();
    assert_eq!(abs, "dest/a");
    let ev = terminal_event(tid, "a".to_string(), Ok(abs));
    match ev {
        Some(Event::FileDownloadSuccess { transfer_id, file_id, final_path }) => {
            assert_eq!(transfer_id, tid);
            assert_eq!(file_id, "a");
            assert_eq!(final_path, "dest/a");
        },
        _ => panic!("expected a success event"),
    }

    // graceful close: the sync store holds nothing for this transfer
    drop_core::server::finalize_graceful(&mut manager, &mut store, tid);
    assert!(store.transfer_state(tid).is_none());
    assert!(manager.get_incoming(tid).is_none());
}

#[test]
fn resume_schedules_in_flight_files() {
    let mut store = SyncStore::new();
    let mut manager = TransferManager::new();
    let tid = 42u128;
    let files = vec![
        FileToRecv::new("x".to_string(), vec!["d".to_string(), "x".to_string()], 8),
        FileToRecv::new("y".to_string(), vec!["d".to_string(), "y".to_string()], 9),
    ];
    let xfer = IncomingTransfer::new_with_uuid("10.0.0.9".to_string(), files, tid);

    // before the crash: rows written, y committed to dest, x completed
    store
        .insert_transfer(tid, true, &vec!["x".to_string(), "y".to_string()])
        .unwrap();
    store.activate_transfer(tid).unwrap();
    store.start_incoming_file(tid, "y", "/dest").unwrap();

    // startup: the registry is restored, the remap cache seeded from the
    // completed file
    manager.resume(
        &store,
        &vec![TransferToResume {
            xfer: xfer.duplicate(),
            finished: vec![FinishedPath {
                subpath: vec!["d".to_string(), "x".to_string()],
                final_path: "/dest/d(2)/x".to_string(),
            }],
        }],
    );

    // the restored entry carries the transfer's metadata, no session
    // channel yet, and the cache seeded from the completed file
    {
        let entry = manager.get_incoming(tid).unwrap();
        assert!(entry.conn.is_none());
        assert_eq!(entry.xfer.peer, "10.0.0.9");
        assert_eq!(entry.xfer.files.len(), 2);
        assert!(entry.dir_mappings.has_mapping("/dest/d"));
    }

    // the peer reconnects with the same transfer
    let info = xfer.storage_info();
    let (tx, mut rx) = tokio::sync::mpsc::unbounded_channel();
    let out = init_client_handler(&mut store, &mut manager, xfer, Some(info), tx).unwrap();
    match out {
        InitOutcome::Resumed { rejected, resumed } => {
            assert!(rejected.is_empty());
            assert_eq!(resumed, vec!["y".to_string()]);
        },
        _ => panic!("expected a resumed transfer"),
    }
    // the session's channel is now attached to the entry
    assert!(manager.get_channel(tid).is_some());

    // the session received one download task for y, aimed at the
    // committed base directory
    let task = match rx.try_recv().unwrap() {
        ServerReq::Download { task } => task,
        _ => panic!("expected a download request"),
    };
    assert!(rx.try_recv().is_err());
    assert_eq!(task.base_dir, "/dest");
    assert_eq!(task.file.id, "y");

    // its final path reuses the suffix chosen before the crash; no new
    // suffix is allocated, so no probe results are needed
    let abs = task.prepare_abs_path(&mut manager, &vec![]).unwrap();
    assert_eq!(abs, "/dest/d(2)/y");
}

#[test]
fn reject_propagation_after_reconnect() {
    let mut store = SyncStore::new();
    let mut manager = TransferManager::new();
    let tid = 5u128;
    let xfer = one_file_xfer(tid, "10.0.0.9", "y", 4);

    // while offline, this host rejected y
    store.insert_transfer(tid, true, &vec!["y".to_string()]).unwrap();
    store
        .incoming_file_set_local_state(tid, "y", FileState::Rejected)
        .unwrap();
    assert_eq!(store.incoming_files_to_reject(tid), vec!["y".to_string()]);

    manager.resume(
        &store,
        &vec![TransferToResume { xfer: xfer.duplicate(), finished: vec![] }],
    );

    // on reconnect the session announces exactly one rejection
    let info = xfer.storage_info();
    let (tx, mut rx) = tokio::sync::mpsc::unbounded_channel();
    let out = init_client_handler(&mut store, &mut manager, xfer, Some(info), tx).unwrap();
    match out {
        InitOutcome::Resumed { rejected, resumed } => {
            assert_eq!(rejected, vec!["y".to_string()]);
            assert!(resumed.is_empty());
        },
        _ => panic!("expected a resumed transfer"),
    }
    match rx.try_recv().unwrap() {
        ServerReq::Reject { file } => assert_eq!(file, "y"),
        _ => panic!("expected a reject request"),
    }
    assert!(rx.try_recv().is_err());

    // a still-new transfer became active on both sides in one step
    let t = store.transfer_state(tid).unwrap();
    assert!(matches!(t.local_state, TransferState::Active));
    assert!(matches!(t.remote_state, TransferState::Active));

    // after the peer acknowledges, nothing is left to announce
    store
        .incoming_file_set_remote_state(tid, "y", FileState::Rejected)
        .unwrap();
    assert!(store.incoming_files_to_reject(tid).is_empty());
}

#[test]
fn resume_mismatch_fails_without_mutating_state() {
    let mut store = SyncStore::new();
    let mut manager = TransferManager::new();
    let tid = 6u128;
    let xfer = one_file_xfer(tid, "10.0.0.9", "a", 10);
    store.insert_transfer(tid, true, &vec!["a".to_string()]).unwrap();
    manager.resume(
        &store,
        &vec![TransferToResume { xfer: xfer.duplicate(), finished: vec![] }],
    );

    // the persisted record names another peer
    let info = IncomingTransferInfo {
        peer: "10.9.9.9".to_string(),
        files: vec![IncomingFileInfo {
            file_id: "a".to_string(),
            subpath: vec!["a".to_string()],
            size: 10,
        }],
    };
    let (tx, mut rx) = tokio::sync::mpsc::unbounded_channel();
    let r = init_client_handler(&mut store, &mut manager, xfer, Some(info), tx);
    assert!(matches!(r, Err(Error::BadTransferState)));
    // nothing was mutated and nothing scheduled
    let t = store.transfer_state(tid).unwrap();
    assert!(matches!(t.local_state, TransferState::New));
    assert!(matches!(t.remote_state, TransferState::New));
    assert!(rx.try_recv().is_err());
    assert!(manager.get_channel(tid).is_none());
}

#[test]
fn resume_of_canceled_transfer_drops_the_channel() {
    let mut store = SyncStore::new();
    let mut manager = TransferManager::new();
    let tid = 8u128;
    let xfer = one_file_xfer(tid, "10.0.0.9", "a", 10);
    store.insert_transfer(tid, true, &vec!["a".to_string()]).unwrap();
    store
        .transfer_set_local_state(tid, TransferState::Canceled)
        .unwrap();
    let info = xfer.storage_info();
    let (tx, mut rx) = tokio::sync::mpsc::unbounded_channel();
    let out = init_client_handler(&mut store, &mut manager, xfer, Some(info), tx).unwrap();
    assert!(matches!(out, InitOutcome::AlreadyCanceled));
    // the sender went down with the handler: the peer observes the end
    // of the stream
    assert!(rx.try_recv().is_err());
    assert!(manager.get_channel(tid).is_none());
}

#[test]
fn matching_file_lists_compare_as_multisets() {
    let a = IncomingTransferInfo {
        peer: "p".to_string(),
        files: vec![
            IncomingFileInfo { file_id: "1".to_string(), subpath: vec!["f1".to_string()], size: 1 },
            IncomingFileInfo { file_id: "2".to_string(), subpath: vec!["f2".to_string()], size: 2 },
        ],
    };
    let b = IncomingTransferInfo {
        peer: "p".to_string(),
        files: vec![
            IncomingFileInfo { file_id: "2".to_string(), subpath: vec!["f2".to_string()], size: 2 },
            IncomingFileInfo { file_id: "1".to_string(), subpath: vec!["f1".to_string()], size: 1 },
        ],
    };
    assert!(ensure_resume_matches_existing_transfer(&a, &b).is_ok());
    let c = IncomingTransferInfo {
        peer: "p".to_string(),
        files: vec![
            IncomingFileInfo { file_id: "1".to_string(), subpath: vec!["f1".to_string()], size: 1 },
        ],
    };
    assert!(matches!(
        ensure_resume_matches_existing_transfer(&a, &c),
        Err(Error::BadTransferState)
    ));
    let d = IncomingTransferInfo { peer: "q".to_string(), files: vec![] };
    assert!(ensure_resume_matches_existing_transfer(&d, &d).is_ok());
}

#[test]
fn progress_is_monotone_and_bounded() {
    let size = 200_000u64;
    let mut fs = FileStream::begin(0, size);
    let mut reported: Vec<u64> = vec![fs.bytes_received];
    let chunks = [65_536usize, 65_536, 65_536, 3_392];
    for c in chunks.iter() {
        let emit = fs.on_chunk(*c).unwrap();
        if emit {
            reported.push(fs.bytes_received);
        }
    }
    assert!(fs.is_complete());
    assert_eq!(reported, vec![0, 65_536, 131_072, 196_608]);
    for w in reported.windows(2) {
        assert!(w[0] <= w[1]);
    }
    for r in reported.iter() {
        assert!(*r <= size);
    }
    assert!(REPORT_PROGRESS_THRESHOLD == 65_536);
}

#[test]
fn oversized_chunk_is_rejected() {
    // the peer sends eleven bytes for a size-ten file
    let mut fs = FileStream::begin(0, 10);
    let r = fs.on_chunk(11);
    assert!(matches!(r, Err(Error::MismatchedSize)));
    // the failure is reported as such, once
    let ev = terminal_event(1, "a".to_string(), Err(Error::MismatchedSize));
    match ev {
        Some(Event::FileDownloadFailed { reason, .. }) => {
            assert!(matches!(reason, Error::MismatchedSize))
        },
        _ => panic!("expected a failure event"),
    }
    // the state did not advance, so an exact retry could still succeed
    assert_eq!(fs.bytes_received, 0);
    assert!(fs.on_chunk(10).is_ok());
}

#[test]
fn canceled_download_is_silent() {
    assert!(terminal_event(1, "a".to_string(), Err(Error::Canceled)).is_none());
}

#[test]
fn resume_offset_is_honored() {
    let mut fs = FileStream::begin(70_000, 70_010);
    let emit = fs.on_chunk(10).unwrap();
    // short of a full threshold past the last report: no extra event
    assert!(!emit);
    assert!(fs.is_complete());
}

#[test]
fn rate_limit_rejects_the_excess_connection() {
    let quota = governor::Quota::per_second(NonZeroU32::new(2).unwrap());
    let limiter = governor::RateLimiter::dashmap(quota);
    let first = limiter.check_key(&1u64).is_ok();
    let second = limiter.check_key(&1u64).is_ok();
    let third = limiter.check_key(&1u64).is_ok();
    assert!(first && second && !third);
    // another address is unaffected
    assert!(limiter.check_key(&2u64).is_ok());
    // the excess connection is answered with 429 before any upgrade
    let v = connection_verdict(Version::V5, third, true, true, true);
    assert!(matches!(v, Verdict::TooManyRequests));
    assert_eq!(v.http_status(), Some(429));
}

#[test]
fn authentication_verdicts() {
    // early versions are admitted without authentication
    assert!(matches!(
        connection_verdict(Version::V1, true, false, false, false),
        Verdict::Accept
    ));
    // a first contact without a header is challenged with a nonce
    let v = connection_verdict(Version::V4, true, false, false, false);
    assert!(matches!(v, Verdict::Challenge));
    assert_eq!(v.http_status(), Some(401));
    // a header without a cached nonce is rejected
    assert!(matches!(
        connection_verdict(Version::V4, true, true, false, false),
        Verdict::Unauthorized
    ));
    // a header that does not validate is rejected
    assert!(matches!(
        connection_verdict(Version::V5, true, true, true, false),
        Verdict::Unauthorized
    ));
    // a validated header is admitted
    assert!(matches!(
        connection_verdict(Version::V5, true, true, true, true),
        Verdict::Accept
    ));
}

#[test]
fn version_path_segments() {
    assert!(matches!(Version::from_path_segment("v1"), Some(Version::V1)));
    assert!(matches!(Version::from_path_segment("v2"), Some(Version::V2)));
    assert!(matches!(Version::from_path_segment("v4"), Some(Version::V4)));
    assert!(matches!(Version::from_path_segment("v5"), Some(Version::V5)));
    assert!(Version::from_path_segment("v3").is_none());
    assert!(Version::from_path_segment("").is_none());
}

#[test]
fn loop_priority_never_delays_api_requests() {
    assert!(matches!(next_source(true, true, true, true), Some(LoopSource::Api)));
    assert!(matches!(next_source(false, true, true, true), Some(LoopSource::Inbound)));
    assert!(matches!(next_source(false, false, true, true), Some(LoopSource::Outbound)));
    assert!(matches!(next_source(false, false, false, true), Some(LoopSource::Ping)));
    assert!(next_source(false, false, false, false).is_none());
}

#[test]
fn error_kinds_have_stable_names() {
    assert_eq!(Error::Canceled.kind_name(), "canceled");
    assert_eq!(Error::MismatchedSize.kind_name(), "mismatched size");
    assert_eq!(
        Error::BadPath("anything".to_string()).kind_name(),
        "bad path"
    );
}

#[test]
fn manager_tracks_both_directions() {
    let mut store = SyncStore::new();
    let mut manager = TransferManager::new();
    // every transfer the manager knows has sync rows in the store
    let incoming = one_file_xfer(21, "p", "a", 1);
    let (tx, _rx) = tokio::sync::mpsc::unbounded_channel();
    manager
        .insert_incoming(&mut store, incoming, Some(tx))
        .unwrap();
    assert!(store.transfer_state(21).is_some());
    assert!(manager.get_incoming(21).is_some());
    let outgoing = OutgoingTransfer {
        id: 22,
        peer: "p".to_string(),
        file_ids: vec!["f".to_string()],
    };
    manager.insert_outgoing(&mut store, outgoing, None).unwrap();
    let t = store.transfer_state(22).unwrap();
    assert!(t.is_outgoing);
    // cancel drops the in-memory entry; the sync rows stay for a resume
    assert!(manager.cancel_incoming(21));
    assert!(manager.cancel_outgoing(22));
    assert!(manager.get_incoming(21).is_none());
    assert!(store.transfer_state(21).is_some());
    assert!(store.transfer_state(22).is_some());
}

#[test]
fn duplicate_registration_is_refused() {
    let mut store = SyncStore::new();
    let mut manager = TransferManager::new();
    let xfer = one_file_xfer(9, "p", "a", 1);
    let (tx, _rx) = tokio::sync::mpsc::unbounded_channel();
    manager
        .insert_incoming(&mut store, xfer.duplicate(), Some(tx))
        .unwrap();
    let (tx2, _rx2) = tokio::sync::mpsc::unbounded_channel();
    assert!(matches!(
        manager.insert_incoming(&mut store, xfer, Some(tx2)),
        Err(Error::BadTransferState)
    ));
}
