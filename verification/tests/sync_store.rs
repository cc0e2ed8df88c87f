use drop_core::error::Error;
use drop_core::sync::{FileState, SyncStore, TransferState};

#[test]
fn state_encodings() {
    assert_eq!(TransferState::New.db_value(), 0);
    assert_eq!(TransferState::Active.db_value(), 1);
    assert_eq!(TransferState::Canceled.db_value(), 2);
    assert_eq!(FileState::Alive.db_value(), 0);
    assert_eq!(FileState::Rejected.db_value(), 1);
    assert!(matches!(TransferState::from_db_value(0), Ok(TransferState::New)));
    assert!(matches!(TransferState::from_db_value(1), Ok(TransferState::Active)));
    assert!(matches!(TransferState::from_db_value(2), Ok(TransferState::Canceled)));
    assert!(matches!(TransferState::from_db_value(3), Err(Error::StorageError)));
    assert!(matches!(TransferState::from_db_value(-1), Err(Error::StorageError)));
    assert!(matches!(FileState::from_db_value(0), Ok(FileState::Alive)));
    assert!(matches!(FileState::from_db_value(1), Ok(FileState::Rejected)));
    assert!(matches!(FileState::from_db_value(2), Err(Error::StorageError)));
}

#[test]
fn insert_then_activate_then_cancel_then_clear_leaves_no_rows() {
    let mut s = SyncStore::new();
    let tid = 7u128;
    s.insert_transfer(tid, true, &vec!["a".to_string()]).unwrap();
    let t = s.transfer_state(tid).unwrap();
    assert!(matches!(t.local_state, TransferState::New));
    assert!(matches!(t.remote_state, TransferState::New));
    assert!(!t.is_outgoing);
    assert!(s.activate_transfer(tid).is_some());
    let t = s.transfer_state(tid).unwrap();
    assert!(matches!(t.local_state, TransferState::Active));
    assert!(matches!(t.remote_state, TransferState::Active));
    assert!(s.transfer_set_local_state(tid, TransferState::Canceled).is_some());
    assert!(s.transfer_set_remote_state(tid, TransferState::Canceled).is_some());
    assert!(s.transfer_clear(tid).is_some());
    // no row of any sync table is left for this transfer
    assert!(s.transfer_state(tid).is_none());
    assert!(s.incoming_file_state(tid, "a").is_none());
    assert!(s.incoming_files_in_flight(tid).is_empty());
    assert!(s.incoming_files_to_reject(tid).is_empty());
    // and the UUID can be inserted afresh
    s.insert_transfer(tid, true, &vec!["a".to_string()]).unwrap();
}

#[test]
fn duplicate_insert_is_refused() {
    let mut s = SyncStore::new();
    s.insert_transfer(1, true, &vec!["a".to_string()]).unwrap();
    assert!(matches!(
        s.insert_transfer(1, true, &vec!["a".to_string()]),
        Err(Error::BadTransferState)
    ));
}

#[test]
fn only_cancellation_is_open_to_the_setters() {
    let mut s = SyncStore::new();
    s.insert_transfer(2, false, &vec![]).unwrap();
    // New -> Active is only taken by the dual activation rule
    assert!(s.transfer_set_local_state(2, TransferState::Active).is_none());
    assert!(s.transfer_set_remote_state(2, TransferState::New).is_none());
    let t = s.transfer_state(2).unwrap();
    assert!(matches!(t.local_state, TransferState::New));
    // unknown transfers are not-found
    assert!(s.transfer_set_local_state(9, TransferState::Canceled).is_none());
    assert!(s.activate_transfer(9).is_none());
    assert!(s.transfer_clear(9).is_none());
    // activation applies once
    assert!(s.activate_transfer(2).is_some());
    assert!(s.activate_transfer(2).is_none());
}

#[test]
fn file_states_follow_direction_and_never_revive() {
    let mut s = SyncStore::new();
    s.insert_transfer(3, true, &vec!["a".to_string(), "y".to_string()]).unwrap();
    // direction gates the accessors
    assert!(s.outgoing_file_state(3, "a").is_none());
    let f = s.incoming_file_state(3, "a").unwrap();
    assert!(matches!(f.local_state, FileState::Alive));
    assert!(matches!(f.remote_state, FileState::Alive));
    // reject locally
    assert!(s.incoming_file_set_local_state(3, "y", FileState::Rejected).is_some());
    // once rejected, a file does not return to alive
    assert!(s.incoming_file_set_local_state(3, "y", FileState::Alive).is_none());
    let f = s.incoming_file_state(3, "y").unwrap();
    assert!(matches!(f.local_state, FileState::Rejected));
    // unknown file id
    assert!(s.incoming_file_set_local_state(3, "zz", FileState::Rejected).is_none());
}

#[test]
fn files_to_reject_lists_unacknowledged_rejections() {
    let mut s = SyncStore::new();
    s.insert_transfer(4, true, &vec!["a".to_string(), "y".to_string()]).unwrap();
    assert!(s.incoming_files_to_reject(4).is_empty());
    s.incoming_file_set_local_state(4, "y", FileState::Rejected).unwrap();
    assert_eq!(s.incoming_files_to_reject(4), vec!["y".to_string()]);
    // the peer acknowledges: the list empties
    s.incoming_file_set_remote_state(4, "y", FileState::Rejected).unwrap();
    assert!(s.incoming_files_to_reject(4).is_empty());
    // the outgoing flavor sees nothing of an incoming transfer
    assert!(s.outgoing_files_to_reject(4).is_empty());
}

#[test]
fn in_flight_rows_join_live_file_rows() {
    let mut s = SyncStore::new();
    s.insert_transfer(5, true, &vec!["a".to_string(), "y".to_string()]).unwrap();
    assert!(s.start_incoming_file(5, "a", "/dst").is_some());
    let rows = s.incoming_files_in_flight(5);
    assert_eq!(rows.len(), 1);
    assert_eq!(rows[0].file_id, "a");
    assert_eq!(rows[0].base_dir, "/dst");
    // a rejected file cannot be started
    s.incoming_file_set_local_state(5, "y", FileState::Rejected).unwrap();
    assert!(s.start_incoming_file(5, "y", "/dst").is_none());
    // rejecting an in-flight file hides it from the join
    s.incoming_file_set_local_state(5, "a", FileState::Rejected).unwrap();
    assert!(s.incoming_files_in_flight(5).is_empty());
    // stopping deletes the row
    assert!(s.stop_incoming_file(5, "a").is_some());
    assert!(s.stop_incoming_file(5, "a").is_none());
}

#[test]
fn outgoing_transfers_use_the_outgoing_tables() {
    let mut s = SyncStore::new();
    s.insert_transfer(6, false, &vec!["f".to_string()]).unwrap();
    let t = s.transfer_state(6).unwrap();
    assert!(t.is_outgoing);
    assert!(s.incoming_file_state(6, "f").is_none());
    assert!(s.outgoing_file_state(6, "f").is_some());
    s.outgoing_file_set_local_state(6, "f", FileState::Rejected).unwrap();
    assert_eq!(s.outgoing_files_to_reject(6), vec!["f".to_string()]);
    s.outgoing_file_set_remote_state(6, "f", FileState::Rejected).unwrap();
    assert!(s.outgoing_files_to_reject(6).is_empty());
    // in-flight rows are a receiver-side concept
    assert!(s.start_incoming_file(6, "f", "/dst").is_none());
}
