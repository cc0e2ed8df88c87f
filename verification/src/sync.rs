//! The sync store: the durable record of what each side knows about the
//! other side's intent, for every transfer and every file within it, plus
//! the in-flight side table of receiver-side files whose destination base
//! directory has been committed.
//!
//! The store itself is a set of in-memory tables with exact contracts;
//! mirroring each completed operation onto an embedded database is the
//! embedder's concern and changes nothing about the semantics given here.

use vstd::prelude::*;

use crate::error::Error;
use crate::strtable::StrTable;

verus! {

broadcast use vstd::std_specs::hash::group_hash_axioms, vstd::hash_map::group_hash_map_axioms;

/// This host's or the peer's intent for a whole transfer.
#[derive(Debug, Clone, Copy, PartialEq, Eq, Structural)]
pub enum TransferState {
    New,
    Active,
    Canceled,
}

impl TransferState {
    /// The integer the state is stored under in the database.
    pub open spec fn spec_db_value(self) -> u8 {
        match self {
            TransferState::New => 0,
            TransferState::Active => 1,
            TransferState::Canceled => 2,
        }
    }

    /// Encodes the state for the database.
    pub fn db_value(self) -> (r: u8)
        ensures
            r == self.spec_db_value(),
    {
        match self {
            TransferState::New => 0,
            TransferState::Active => 1,
            TransferState::Canceled => 2,
        }
    }

    /// Decodes a database value; anything out of range is rejected.
    pub fn from_db_value(v: i64) -> (r: Result<TransferState, Error>)
        ensures
            r is Err <==> !(0 <= v <= 2),
            r matches Err(e) ==> e is StorageError,
            r matches Ok(s) ==> 0 <= v <= 2 && v == s.spec_db_value(),
    {
        if v == 0 {
            Ok(TransferState::New)
        } else if v == 1 {
            Ok(TransferState::Active)
        } else if v == 2 {
            Ok(TransferState::Canceled)
        } else {
            Err(Error::StorageError)
        }
    }
}

/// This host's or the peer's intent for one file of a transfer.
#[derive(Debug, Clone, Copy, PartialEq, Eq, Structural)]
pub enum FileState {
    Alive,
    Rejected,
}

impl FileState {
    /// The integer the state is stored under in the database.
    pub open spec fn spec_db_value(self) -> u8 {
        match self {
            FileState::Alive => 0,
            FileState::Rejected => 1,
        }
    }

    /// Encodes the state for the database.
    pub fn db_value(self) -> (r: u8)
        ensures
            r == self.spec_db_value(),
    {
        match self {
            FileState::Alive => 0,
            FileState::Rejected => 1,
        }
    }

    /// Decodes a database value; anything out of range is rejected.
    pub fn from_db_value(v: i64) -> (r: Result<FileState, Error>)
        ensures
            r is Err <==> !(0 <= v <= 1),
            r matches Err(e) ==> e is StorageError,
            r matches Ok(s) ==> 0 <= v <= 1 && v == s.spec_db_value(),
    {
        if v == 0 {
            Ok(FileState::Alive)
        } else if v == 1 {
            Ok(FileState::Rejected)
        } else {
            Err(Error::StorageError)
        }
    }
}

/// The sync row of a whole transfer.
#[derive(Debug, Clone, Copy, PartialEq, Eq, Structural)]
pub struct Transfer {
    pub remote_state: TransferState,
    pub local_state: TransferState,
    pub is_outgoing: bool,
}

/// The sync row of one file.
#[derive(Debug, Clone, Copy, PartialEq, Eq, Structural)]
pub struct File {
    pub remote_state: FileState,
    pub local_state: FileState,
}

/// One receiver-side file in flight: its id and the destination base
/// directory committed for it.
#[derive(Debug, Clone)]
pub struct FileInFilght {
    pub base_dir: String,
    pub file_id: String,
}

/// Everything the store knows about one transfer: the state pair, the
/// direction, the per-file state pairs, and the in-flight base
/// directories (receiver side only).
pub struct TransferRow {
    pub local_state: TransferState,
    pub remote_state: TransferState,
    pub is_outgoing: bool,
    pub files: StrTable<File>,
    pub in_flight: StrTable<String>,
}

/// The sync store: one row set per transfer, keyed by the transfer UUID
/// (held as its 128-bit value).
pub struct SyncStore {
    transfers: vstd::hash_map::HashMapWithView<u128, TransferRow>,
}

impl View for SyncStore {
    type V = Map<u128, TransferRow>;

    closed spec fn view(&self) -> Map<u128, TransferRow> {
        self.transfers@
    }
}

/// The file table that holds every id of `ids`, each with both states
/// `Alive`.
pub open spec fn all_alive(ids: Seq<Seq<char>>) -> Map<Seq<char>, File> {
    Map::new(
        |k: Seq<char>| ids.contains(k),
        |k: Seq<char>| File { remote_state: FileState::Alive, local_state: FileState::Alive },
    )
}

impl SyncStore {
    /// Well-formedness of the nested tables; every operation preserves it.
    pub open spec fn wf(self) -> bool {
        forall|t: u128|
            self@.contains_key(t) ==> (#[trigger] self@[t]).files.wf() && self@[t].in_flight.wf()
    }

    /// An empty store.
    pub fn new() -> (r: Self)
        ensures
            r.wf(),
            r@ == Map::<u128, TransferRow>::empty(),
    {
        SyncStore { transfers: vstd::hash_map::HashMapWithView::new() }
    }

    /// Inserts the sync rows of a new transfer: both transfer states
    /// `New`, one file row per given id with both states `Alive`, nothing
    /// in flight. Fails when the transfer already has sync rows.
    pub fn insert_transfer(
        &mut self,
        transfer_id: u128,
        is_incoming: bool,
        file_ids: &Vec<String>,
    ) -> (r: Result<(), Error>)
        requires
            old(self).wf(),
        ensures
            final(self).wf(),
            r is Ok <==> !old(self)@.contains_key(transfer_id),
            r matches Err(e) ==> e is BadTransferState && final(self)@ == old(self)@,
            r is Ok ==> (final(self)@ =~= old(self)@.insert(
                transfer_id,
                final(self)@[transfer_id],
            )),
            r is Ok ==> final(self)@[transfer_id].local_state == TransferState::New
                && final(self)@[transfer_id].remote_state == TransferState::New
                && final(self)@[transfer_id].is_outgoing == !is_incoming
                && (final(self)@[transfer_id].files@ =~= all_alive(file_ids.deep_view()))
                && (final(self)@[transfer_id].in_flight@ =~= Map::<Seq<char>, String>::empty()),
    {
        if self.transfers.contains_key(&transfer_id) {
            return Err(Error::BadTransferState);
        }
        let mut files: StrTable<File> = StrTable::new();
        let mut i: usize = 0;
        while i < file_ids.len()
            invariant
                0 <= i <= file_ids.len(),
                files.wf(),
                files@ =~= all_alive(file_ids.deep_view().take(i as int)),
            decreases file_ids.len() - i,
        {
            proof {
                assert(file_ids.deep_view()[i as int] == file_ids@[i as int]@);
            }
            files.insert(
                file_ids[i].clone(),
                File { remote_state: FileState::Alive, local_state: FileState::Alive },
            );
            proof {
                let dv = file_ids.deep_view();
                assert forall|k: Seq<char>| dv.take(i + 1).contains(k) implies dv.take(
                    i as int,
                ).contains(k) || k == dv[i as int] by {
                    let m = choose|m: int| 0 <= m < i + 1 && (#[trigger] dv.take(i + 1)[m]) == k;
                    if m < i {
                        assert(dv.take(i as int)[m] == k);
                    }
                }
                assert forall|k: Seq<char>| dv.take(i as int).contains(k) implies dv.take(
                    i + 1,
                ).contains(k) by {
                    let m = choose|m: int| 0 <= m < i && (#[trigger] dv.take(i as int)[m]) == k;
                    assert(dv.take(i + 1)[m] == k);
                }
                assert(dv.take(i + 1)[i as int] == dv[i as int]);
                assert(files@ =~= all_alive(dv.take(i + 1)));
            }
            i += 1;
        }
        proof {
            assert(file_ids.deep_view().take(file_ids.len() as int) =~= file_ids.deep_view());
        }
        let row = TransferRow {
            local_state: TransferState::New,
            remote_state: TransferState::New,
            is_outgoing: !is_incoming,
            files,
            in_flight: StrTable::new(),
        };
        self.transfers.insert(transfer_id, row);
        Ok(())
    }

    /// The state pair and direction of a transfer, if it has sync rows.
    pub fn transfer_state(&self, transfer_id: u128) -> (r: Option<Transfer>)
        ensures
            match r {
                Some(t) => self@.contains_key(transfer_id) && t.local_state
                    == self@[transfer_id].local_state && t.remote_state
                    == self@[transfer_id].remote_state && t.is_outgoing
                    == self@[transfer_id].is_outgoing,
                None => !self@.contains_key(transfer_id),
            },
    {
        match self.transfers.get(&transfer_id) {
            Some(row) => Some(
                Transfer {
                    remote_state: row.remote_state,
                    local_state: row.local_state,
                    is_outgoing: row.is_outgoing,
                },
            ),
            None => None,
        }
    }

    /// Sets the local transfer state. The only transition open to this
    /// call is into `Canceled`; any other attempt, and any unknown
    /// transfer, is a no-op answered with `None`.
    pub fn transfer_set_local_state(&mut self, transfer_id: u128, state: TransferState) -> (r:
        Option<()>)
        requires
            old(self).wf(),
        ensures
            final(self).wf(),
            r is Some <==> old(self)@.contains_key(transfer_id) && state
                == TransferState::Canceled,
            r is None ==> final(self)@ == old(self)@,
            r is Some ==> (final(self)@ =~= old(self)@.insert(
                transfer_id,
                (TransferRow { local_state: state, ..old(self)@[transfer_id] }),
            )),
    {
        if !(state == TransferState::Canceled) {
            return None;
        }
        match self.transfers.remove(&transfer_id) {
            Some(row) => {
                let new_row = TransferRow { local_state: state, ..row };
                self.transfers.insert(transfer_id, new_row);
                Some(())
            },
            None => None,
        }
    }

    /// Sets the remote transfer state, under the same transition rule as
    /// the local one.
    pub fn transfer_set_remote_state(&mut self, transfer_id: u128, state: TransferState) -> (r:
        Option<()>)
        requires
            old(self).wf(),
        ensures
            final(self).wf(),
            r is Some <==> old(self)@.contains_key(transfer_id) && state
                == TransferState::Canceled,
            r is None ==> final(self)@ == old(self)@,
            r is Some ==> (final(self)@ =~= old(self)@.insert(
                transfer_id,
                (TransferRow { remote_state: state, ..old(self)@[transfer_id] }),
            )),
    {
        if !(state == TransferState::Canceled) {
            return None;
        }
        match self.transfers.remove(&transfer_id) {
            Some(row) => {
                let new_row = TransferRow { remote_state: state, ..row };
                self.transfers.insert(transfer_id, new_row);
                Some(())
            },
            None => None,
        }
    }

    /// The transition taken on the first message from the peer: when the
    /// local observer still has state `New`, both states become `Active`
    /// in one step.
    pub fn activate_transfer(&mut self, transfer_id: u128) -> (r: Option<()>)
        requires
            old(self).wf(),
        ensures
            final(self).wf(),
            r is Some <==> old(self)@.contains_key(transfer_id) && old(self)@[transfer_id].local_state
                == TransferState::New,
            r is None ==> final(self)@ == old(self)@,
            r is Some ==> (final(self)@ =~= old(self)@.insert(
                transfer_id,
                (TransferRow {
                    local_state: TransferState::Active,
                    remote_state: TransferState::Active,
                    ..old(self)@[transfer_id]
                }),
            )),
    {
        match self.transfers.remove(&transfer_id) {
            Some(row) => {
                if row.local_state == TransferState::New {
                    let new_row = TransferRow {
                        local_state: TransferState::Active,
                        remote_state: TransferState::Active,
                        ..row
                    };
                    self.transfers.insert(transfer_id, new_row);
                    Some(())
                } else {
                    self.transfers.insert(transfer_id, row);
                    proof {
                        assert(self@ =~= old(self)@);
                    }
                    None
                }
            },
            None => None,
        }
    }

    /// Deletes every sync row of the transfer: its state pair, its file
    /// rows and its in-flight rows all live in the one entry removed
    /// here.
    pub fn transfer_clear(&mut self, transfer_id: u128) -> (r: Option<()>)
        requires
            old(self).wf(),
        ensures
            final(self).wf(),
            r is Some <==> old(self)@.contains_key(transfer_id),
            r is None ==> final(self)@ == old(self)@,
            (final(self)@ =~= old(self)@.remove(transfer_id)),
    {
        match self.transfers.remove(&transfer_id) {
            Some(_) => Some(()),
            None => {
                proof {
                    assert(self@ =~= old(self)@.remove(transfer_id));
                }
                None
            },
        }
    }

    /// The state pair of one file of an outgoing transfer.
    pub fn outgoing_file_state(&self, transfer_id: u128, file_id: &str) -> (r: Option<File>)
        ensures
            match r {
                Some(f) => self@.contains_key(transfer_id) && self@[transfer_id].is_outgoing
                    && self@[transfer_id].files@.contains_key(file_id@) && f
                    == self@[transfer_id].files@[file_id@],
                None => !self@.contains_key(transfer_id) || !self@[transfer_id].is_outgoing
                    || !self@[transfer_id].files@.contains_key(file_id@),
            },
    {
        match self.transfers.get(&transfer_id) {
            Some(row) => {
                if row.is_outgoing {
                    match row.files.get(file_id) {
                        Some(f) => Some(*f),
                        None => None,
                    }
                } else {
                    None
                }
            },
            None => None,
        }
    }

    /// The state pair of one file of an incoming transfer.
    pub fn incoming_file_state(&self, transfer_id: u128, file_id: &str) -> (r: Option<File>)
        ensures
            match r {
                Some(f) => self@.contains_key(transfer_id) && !self@[transfer_id].is_outgoing
                    && self@[transfer_id].files@.contains_key(file_id@) && f
                    == self@[transfer_id].files@[file_id@],
                None => !self@.contains_key(transfer_id) || self@[transfer_id].is_outgoing
                    || !self@[transfer_id].files@.contains_key(file_id@),
            },
    {
        match self.transfers.get(&transfer_id) {
            Some(row) => {
                if !row.is_outgoing {
                    match row.files.get(file_id) {
                        Some(f) => Some(*f),
                        None => None,
                    }
                } else {
                    None
                }
            },
            None => None,
        }
    }

    /// Whether a file-state update is allowed: the transfer must exist
    /// with the expected direction, the file row must exist, and a
    /// `Rejected` state may never return to `Alive`.
    pub open spec fn file_update_allowed(
        self,
        transfer_id: u128,
        file_id: Seq<char>,
        state: FileState,
        local: bool,
        outgoing: bool,
    ) -> bool {
        &&& self@.contains_key(transfer_id)
        &&& self@[transfer_id].is_outgoing == outgoing
        &&& self@[transfer_id].files@.contains_key(file_id)
        &&& !((if local {
            self@[transfer_id].files@[file_id].local_state
        } else {
            self@[transfer_id].files@[file_id].remote_state
        }) == FileState::Rejected && state == FileState::Alive)
    }

    /// The file table after one state pair is updated.
    pub open spec fn file_updated(
        self,
        transfer_id: u128,
        file_id: Seq<char>,
        state: FileState,
        local: bool,
    ) -> Map<Seq<char>, File> {
        let f = self@[transfer_id].files@[file_id];
        self@[transfer_id].files@.insert(
            file_id,
            if local {
                File { local_state: state, remote_state: f.remote_state }
            } else {
                File { local_state: f.local_state, remote_state: state }
            },
        )
    }

    fn set_file_state(
        &mut self,
        transfer_id: u128,
        file_id: &str,
        state: FileState,
        local: bool,
        outgoing: bool,
    ) -> (r: Option<()>)
        requires
            old(self).wf(),
        ensures
            final(self).wf(),
            r is Some <==> old(self).file_update_allowed(
                transfer_id,
                file_id@,
                state,
                local,
                outgoing,
            ),
            r is None ==> final(self)@ == old(self)@,
            r is Some ==> (final(self)@ =~= old(self)@.insert(
                transfer_id,
                (TransferRow { files: final(self)@[transfer_id].files, ..old(
                    self,
                )@[transfer_id] }),
            )),
            r is Some ==> (final(self)@[transfer_id].files@ =~= old(self).file_updated(
                transfer_id,
                file_id@,
                state,
                local,
            )),
    {
        match self.transfers.remove(&transfer_id) {
            Some(row) => {
                if row.is_outgoing != outgoing {
                    self.transfers.insert(transfer_id, row);
                    proof {
                        assert(self@ =~= old(self)@);
                    }
                    return None;
                }
                let fopt = match row.files.get(file_id) {
                    Some(f) => Some(*f),
                    None => None,
                };
                match fopt {
                    Some(f) => {
                        let cur = if local {
                            f.local_state
                        } else {
                            f.remote_state
                        };
                        if cur == FileState::Rejected && state == FileState::Alive {
                            self.transfers.insert(transfer_id, row);
                            proof {
                                assert(self@ =~= old(self)@);
                            }
                            None
                        } else {
                            let newf = if local {
                                File { local_state: state, remote_state: f.remote_state }
                            } else {
                                File { local_state: f.local_state, remote_state: state }
                            };
                            let mut row = row;
                            row.files.insert(file_id.to_owned(), newf);
                            self.transfers.insert(transfer_id, row);
                            Some(())
                        }
                    },
                    None => {
                        self.transfers.insert(transfer_id, row);
                        proof {
                            assert(self@ =~= old(self)@);
                        }
                        None
                    },
                }
            },
            None => None,
        }
    }

    /// Sets this host's state for one file of an outgoing transfer.
    pub fn outgoing_file_set_local_state(
        &mut self,
        transfer_id: u128,
        file_id: &str,
        state: FileState,
    ) -> (r: Option<()>)
        requires
            old(self).wf(),
        ensures
            final(self).wf(),
            r is Some <==> old(self).file_update_allowed(transfer_id, file_id@, state, true, true),
            r is None ==> final(self)@ == old(self)@,
            r is Some ==> (final(self)@ =~= old(self)@.insert(
                transfer_id,
                (TransferRow { files: final(self)@[transfer_id].files, ..old(
                    self,
                )@[transfer_id] }),
            )),
            r is Some ==> (final(self)@[transfer_id].files@ =~= old(self).file_updated(
                transfer_id,
                file_id@,
                state,
                true,
            )),
    {
        self.set_file_state(transfer_id, file_id, state, true, true)
    }

    /// Sets the peer's state for one file of an outgoing transfer.
    pub fn outgoing_file_set_remote_state(
        &mut self,
        transfer_id: u128,
        file_id: &str,
        state: FileState,
    ) -> (r: Option<()>)
        requires
            old(self).wf(),
        ensures
            final(self).wf(),
            r is Some <==> old(self).file_update_allowed(
                transfer_id,
                file_id@,
                state,
                false,
                true,
            ),
            r is None ==> final(self)@ == old(self)@,
            r is Some ==> (final(self)@ =~= old(self)@.insert(
                transfer_id,
                (TransferRow { files: final(self)@[transfer_id].files, ..old(
                    self,
                )@[transfer_id] }),
            )),
            r is Some ==> (final(self)@[transfer_id].files@ =~= old(self).file_updated(
                transfer_id,
                file_id@,
                state,
                false,
            )),
    {
        self.set_file_state(transfer_id, file_id, state, false, true)
    }

    /// Sets this host's state for one file of an incoming transfer.
    pub fn incoming_file_set_local_state(
        &mut self,
        transfer_id: u128,
        file_id: &str,
        state: FileState,
    ) -> (r: Option<()>)
        requires
            old(self).wf(),
        ensures
            final(self).wf(),
            r is Some <==> old(self).file_update_allowed(
                transfer_id,
                file_id@,
                state,
                true,
                false,
            ),
            r is None ==> final(self)@ == old(self)@,
            r is Some ==> (final(self)@ =~= old(self)@.insert(
                transfer_id,
                (TransferRow { files: final(self)@[transfer_id].files, ..old(
                    self,
                )@[transfer_id] }),
            )),
            r is Some ==> (final(self)@[transfer_id].files@ =~= old(self).file_updated(
                transfer_id,
                file_id@,
                state,
                true,
            )),
    {
        self.set_file_state(transfer_id, file_id, state, true, false)
    }

    /// Sets the peer's state for one file of an incoming transfer.
    pub fn incoming_file_set_remote_state(
        &mut self,
        transfer_id: u128,
        file_id: &str,
        state: FileState,
    ) -> (r: Option<()>)
        requires
            old(self).wf(),
        ensures
            final(self).wf(),
            r is Some <==> old(self).file_update_allowed(
                transfer_id,
                file_id@,
                state,
                false,
                false,
            ),
            r is None ==> final(self)@ == old(self)@,
            r is Some ==> (final(self)@ =~= old(self)@.insert(
                transfer_id,
                (TransferRow { files: final(self)@[transfer_id].files, ..old(
                    self,
                )@[transfer_id] }),
            )),
            r is Some ==> (final(self)@[transfer_id].files@ =~= old(self).file_updated(
                transfer_id,
                file_id@,
                state,
                false,
            )),
    {
        self.set_file_state(transfer_id, file_id, state, false, false)
    }
}

/// Whether a file row asks for a reject announcement: this host has
/// rejected it and the peer does not know yet.
pub open spec fn wants_reject(files: Map<Seq<char>, File>, f: Seq<char>) -> bool {
    &&& files.contains_key(f)
    &&& files[f].local_state == FileState::Rejected
    &&& files[f].remote_state != FileState::Rejected
}

impl SyncStore {
    fn files_to_reject(&self, transfer_id: u128, outgoing: bool) -> (r: Vec<String>)
        requires
            self.wf(),
        ensures
            r.deep_view().no_duplicates(),
            forall|f: Seq<char>| #[trigger]
                r.deep_view().contains(f) <==> self@.contains_key(transfer_id)
                    && self@[transfer_id].is_outgoing == outgoing && wants_reject(
                    self@[transfer_id].files@,
                    f,
                ),
    {
        let mut out: Vec<String> = Vec::new();
        let row = match self.transfers.get(&transfer_id) {
            Some(row) => row,
            None => {
                proof {
                    assert(out.deep_view() =~= Seq::<Seq<char>>::empty());
                }
                return out;
            },
        };
        if row.is_outgoing != outgoing {
            proof {
                assert(out.deep_view() =~= Seq::<Seq<char>>::empty());
            }
            return out;
        }
        row.files.keys_facts();
        let ghost ks = row.files.key_seq();
        let n = row.files.len();
        let mut i: usize = 0;
        while i < n
            invariant
                self.wf(),
                self@.contains_key(transfer_id),
                *row == self@[transfer_id],
                row.is_outgoing == outgoing,
                ks == row.files.key_seq(),
                ks.no_duplicates(),
                forall|f: Seq<char>| row.files@.contains_key(f) <==> ks.contains(f),
                n == ks.len(),
                0 <= i <= n,
                out.deep_view().no_duplicates(),
                forall|f: Seq<char>| #[trigger]
                    out.deep_view().contains(f) <==> ks.take(i as int).contains(f)
                        && wants_reject(row.files@, f),
            decreases n - i,
        {
            let k = row.files.key_at(i);
            let f = match row.files.get(k.as_str()) {
                Some(f) => *f,
                None => {
                    proof {
                        assert(false);
                    }
                    File { remote_state: FileState::Alive, local_state: FileState::Alive }
                },
            };
            let ghost pre = out;
            if matches!(f.local_state, FileState::Rejected) && !matches!(
                f.remote_state,
                FileState::Rejected,
            ) {
                proof {
                    if out.deep_view().contains(ks[i as int]) {
                        let m = choose|m: int| 0 <= m < i && (#[trigger] ks.take(i as int)[m]) == ks[i as int];
                        assert(ks[m] == ks[i as int]);
                        assert(false);
                    }
                }
                out.push(k.clone());
                proof {
                    crate::strtable::lemma_deep_view_push(pre, out, *k);
                    assert forall|f2: Seq<char>| #[trigger] out.deep_view().contains(f2) implies
                        ks.take(i + 1).contains(f2) && wants_reject(row.files@, f2) by {
                        if pre.deep_view().contains(f2) {
                            let m = choose|m: int|
                                0 <= m < i && (#[trigger] ks.take(i as int)[m]) == f2;
                            assert(ks.take(i + 1)[m] == f2);
                        } else {
                            assert(out.deep_view().last() == ks[i as int]);
                            let m = choose|m: int|
                                0 <= m < out.deep_view().len() && out.deep_view()[m] == f2;
                            if m < pre.deep_view().len() {
                                assert(pre.deep_view().contains(f2));
                            }
                            assert(f2 == ks[i as int]);
                            assert(ks.take(i + 1)[i as int] == f2);
                        }
                    }
                    assert forall|f2: Seq<char>|
                        ks.take(i + 1).contains(f2) && wants_reject(row.files@, f2) implies
                        #[trigger] out.deep_view().contains(f2) by {
                        let m = choose|m: int| 0 <= m < i + 1 && (#[trigger] ks.take(i + 1)[m]) == f2;
                        if m < i {
                            assert(ks.take(i as int)[m] == f2);
                            assert(pre.deep_view().contains(f2));
                            let m2 = choose|m2: int|
                                0 <= m2 < pre.deep_view().len() && pre.deep_view()[m2] == f2;
                            assert(out.deep_view()[m2] == f2);
                        } else {
                            assert(out.deep_view().last() == f2);
                        }
                    }
                }
            } else {
                proof {
                    assert forall|f2: Seq<char>| #[trigger]
                        out.deep_view().contains(f2) <==> ks.take(i + 1).contains(f2)
                            && wants_reject(row.files@, f2) by {
                        if ks.take(i + 1).contains(f2) && wants_reject(row.files@, f2) {
                            let m = choose|m: int| 0 <= m < i + 1 && (#[trigger] ks.take(i + 1)[m]) == f2;
                            if m == i {
                                assert(f2 == ks[i as int]);
                                assert(false);
                            } else {
                                assert(ks.take(i as int)[m] == f2);
                            }
                        }
                        if out.deep_view().contains(f2) {
                            let m = choose|m: int|
                                0 <= m < i && (#[trigger] ks.take(i as int)[m]) == f2;
                            assert(ks.take(i + 1)[m] == f2);
                        }
                    }
                }
            }
            i += 1;
        }
        proof {
            assert(ks.take(n as int) =~= ks);
        }
        out
    }

    /// The outgoing files whose rejection the peer has not acknowledged:
    /// this host's state is `Rejected`, the peer's is not.
    pub fn outgoing_files_to_reject(&self, transfer_id: u128) -> (r: Vec<String>)
        requires
            self.wf(),
        ensures
            r.deep_view().no_duplicates(),
            forall|f: Seq<char>| #[trigger]
                r.deep_view().contains(f) <==> self@.contains_key(transfer_id)
                    && self@[transfer_id].is_outgoing && wants_reject(
                    self@[transfer_id].files@,
                    f,
                ),
    {
        self.files_to_reject(transfer_id, true)
    }

    /// The incoming files whose rejection the peer has not acknowledged.
    pub fn incoming_files_to_reject(&self, transfer_id: u128) -> (r: Vec<String>)
        requires
            self.wf(),
        ensures
            r.deep_view().no_duplicates(),
            forall|f: Seq<char>| #[trigger]
                r.deep_view().contains(f) <==> self@.contains_key(transfer_id)
                    && !self@[transfer_id].is_outgoing && wants_reject(
                    self@[transfer_id].files@,
                    f,
                ),
    {
        self.files_to_reject(transfer_id, false)
    }

    /// Whether a file of an incoming transfer is in flight with a live
    /// file row; such files are resumed on reconnect.
    pub open spec fn in_flight_alive(self, transfer_id: u128, f: Seq<char>) -> bool {
        &&& self@.contains_key(transfer_id)
        &&& !self@[transfer_id].is_outgoing
        &&& self@[transfer_id].in_flight@.contains_key(f)
        &&& self@[transfer_id].files@.contains_key(f)
        &&& self@[transfer_id].files@[f].local_state == FileState::Alive
    }

    /// The in-flight rows of an incoming transfer, joined with the live
    /// file rows: each file id with its committed base directory.
    pub fn incoming_files_in_flight(&self, transfer_id: u128) -> (r: Vec<FileInFilght>)
        requires
            self.wf(),
        ensures
            forall|j: int|
                0 <= j < r@.len() ==> self.in_flight_alive(transfer_id, (#[trigger] r@[j]).file_id@)
                    && r@[j].base_dir@ == self@[transfer_id].in_flight@[r@[j].file_id@]@,
            forall|f: Seq<char>|
                self.in_flight_alive(transfer_id, f) ==> exists|j: int|
                    0 <= j < r@.len() && (#[trigger] r@[j]).file_id@ == f,
            forall|a: int, b: int| 0 <= a < b < r@.len() ==> r@[a].file_id@ != r@[b].file_id@,
    {
        let mut out: Vec<FileInFilght> = Vec::new();
        let row = match self.transfers.get(&transfer_id) {
            Some(row) => row,
            None => {
                return out;
            },
        };
        if row.is_outgoing {
            return out;
        }
        row.in_flight.keys_facts();
        let ghost ks = row.in_flight.key_seq();
        let n = row.in_flight.len();
        let mut i: usize = 0;
        while i < n
            invariant
                self.wf(),
                self@.contains_key(transfer_id),
                *row == self@[transfer_id],
                !row.is_outgoing,
                ks == row.in_flight.key_seq(),
                ks.no_duplicates(),
                forall|f: Seq<char>| row.in_flight@.contains_key(f) <==> ks.contains(f),
                n == ks.len(),
                0 <= i <= n,
                forall|j: int|
                    0 <= j < out@.len() ==> self.in_flight_alive(
                        transfer_id,
                        (#[trigger] out@[j]).file_id@,
                    ) && out@[j].base_dir@ == row.in_flight@[out@[j].file_id@]@
                        && ks.take(i as int).contains(out@[j].file_id@),
                forall|f: Seq<char>|
                    ks.take(i as int).contains(f) && self.in_flight_alive(transfer_id, f)
                        ==> exists|j: int| 0 <= j < out@.len() && (#[trigger] out@[j]).file_id@
                        == f,
                forall|a: int, b: int|
                    0 <= a < b < out@.len() ==> out@[a].file_id@ != out@[b].file_id@,
            decreases n - i,
        {
            let k = row.in_flight.key_at(i);
            let bd = match row.in_flight.get(k.as_str()) {
                Some(bd) => bd,
                None => {
                    proof {
                        assert(false);
                    }
                    k
                },
            };
            let alive = match row.files.get(k.as_str()) {
                Some(f) => matches!(f.local_state, FileState::Alive),
                None => false,
            };
            let ghost pre = out@;
            if alive {
                proof {
                    if exists|j: int| 0 <= j < pre.len() && (#[trigger] pre[j]).file_id@ == ks[i as int] {
                        let j = choose|j: int|
                            0 <= j < pre.len() && (#[trigger] pre[j]).file_id@ == ks[i as int];
                        let m = choose|m: int|
                            0 <= m < i && (#[trigger] ks.take(i as int)[m]) == ks[i as int];
                        assert(ks[m] == ks[i as int]);
                        assert(false);
                    }
                }
                out.push(FileInFilght { base_dir: bd.clone(), file_id: k.clone() });
                proof {
                    assert(out@ == pre.push((FileInFilght { base_dir: *bd, file_id: *k })));
                    assert forall|f: Seq<char>|
                        ks.take(i + 1).contains(f) && self.in_flight_alive(transfer_id, f)
                            implies exists|j: int| 0 <= j < out@.len() && (#[trigger] out@[j]).file_id@
                            == f by {
                        let m = choose|m: int| 0 <= m < i + 1 && (#[trigger] ks.take(i + 1)[m]) == f;
                        if m < i {
                            assert(ks.take(i as int)[m] == f);
                            let j = choose|j: int|
                                0 <= j < pre.len() && (#[trigger] pre[j]).file_id@ == f;
                            assert(out@[j].file_id@ == f);
                        } else {
                            assert(out@[pre.len() as int].file_id@ == ks[i as int]);
                        }
                    }
                    assert forall|j: int| 0 <= j < out@.len() implies self.in_flight_alive(
                        transfer_id,
                        (#[trigger] out@[j]).file_id@,
                    ) && out@[j].base_dir@ == row.in_flight@[out@[j].file_id@]@
                        && ks.take(i + 1).contains(out@[j].file_id@) by {
                        if j < pre.len() {
                            let m = choose|m: int|
                                0 <= m < i && (#[trigger] ks.take(i as int)[m]) == out@[j].file_id@;
                            assert(ks.take(i + 1)[m] == out@[j].file_id@);
                        } else {
                            assert(ks.take(i + 1)[i as int] == ks[i as int]);
                        }
                    }
                }
            } else {
                proof {
                    assert forall|f: Seq<char>|
                        ks.take(i + 1).contains(f) && self.in_flight_alive(transfer_id, f)
                            implies exists|j: int| 0 <= j < out@.len() && (#[trigger] out@[j]).file_id@
                            == f by {
                        let m = choose|m: int| 0 <= m < i + 1 && (#[trigger] ks.take(i + 1)[m]) == f;
                        if m == i {
                            assert(f == ks[i as int]);
                            assert(row.files@.contains_key(f) && row.files@[f].local_state
                                == FileState::Alive);
                            assert(false);
                        } else {
                            assert(ks.take(i as int)[m] == f);
                        }
                    }
                    assert forall|j: int| 0 <= j < out@.len() implies self.in_flight_alive(
                        transfer_id,
                        (#[trigger] out@[j]).file_id@,
                    ) && out@[j].base_dir@ == row.in_flight@[out@[j].file_id@]@
                        && ks.take(i + 1).contains(out@[j].file_id@) by {
                        let m = choose|m: int|
                            0 <= m < i && (#[trigger] ks.take(i as int)[m]) == out@[j].file_id@;
                        assert(ks.take(i + 1)[m] == out@[j].file_id@);
                    }
                }
            }
            i += 1;
        }
        proof {
            assert(ks.take(n as int) =~= ks);
        }
        out
    }

    /// Commits a destination base directory for one incoming file: the
    /// in-flight row is inserted, unless the file row is missing or no
    /// longer `Alive`, in which case nothing happens.
    pub fn start_incoming_file(
        &mut self,
        transfer_id: u128,
        file_id: &str,
        base_dir: &str,
    ) -> (r: Option<()>)
        requires
            old(self).wf(),
        ensures
            final(self).wf(),
            r is Some <==> old(self)@.contains_key(transfer_id) && !old(
                self,
            )@[transfer_id].is_outgoing && old(self)@[transfer_id].files@.contains_key(file_id@)
                && old(self)@[transfer_id].files@[file_id@].local_state == FileState::Alive,
            r is None ==> final(self)@ == old(self)@,
            r is Some ==> (final(self)@ =~= old(self)@.insert(
                transfer_id,
                (TransferRow { in_flight: final(self)@[transfer_id].in_flight, ..old(
                    self,
                )@[transfer_id] }),
            )),
            r is Some ==> (final(self)@[transfer_id].in_flight@.dom() =~= old(
                self,
            )@[transfer_id].in_flight@.dom().insert(file_id@)),
            r is Some ==> final(self)@[transfer_id].in_flight@[file_id@]@ == base_dir@,
            r is Some ==> forall|f: Seq<char>|
                f != file_id@ && old(self)@[transfer_id].in_flight@.contains_key(f)
                    ==> final(self)@[transfer_id].in_flight@[f] == old(
                    self,
                )@[transfer_id].in_flight@[f],
    {
        match self.transfers.remove(&transfer_id) {
            Some(row) => {
                if row.is_outgoing {
                    self.transfers.insert(transfer_id, row);
                    proof {
                        assert(self@ =~= old(self)@);
                    }
                    return None;
                }
                let alive = match row.files.get(file_id) {
                    Some(f) => matches!(f.local_state, FileState::Alive),
                    None => false,
                };
                if alive {
                    let mut row = row;
                    row.in_flight.insert(file_id.to_owned(), base_dir.to_owned());
                    self.transfers.insert(transfer_id, row);
                    Some(())
                } else {
                    self.transfers.insert(transfer_id, row);
                    proof {
                        assert(self@ =~= old(self)@);
                    }
                    None
                }
            },
            None => None,
        }
    }

    /// Deletes the in-flight row of one incoming file; a no-op when none
    /// exists.
    pub fn stop_incoming_file(&mut self, transfer_id: u128, file_id: &str) -> (r: Option<()>)
        requires
            old(self).wf(),
        ensures
            final(self).wf(),
            r is Some <==> old(self)@.contains_key(transfer_id) && !old(
                self,
            )@[transfer_id].is_outgoing && old(self)@[transfer_id].in_flight@.contains_key(
                file_id@,
            ),
            r is None ==> final(self)@ == old(self)@,
            r is Some ==> (final(self)@ =~= old(self)@.insert(
                transfer_id,
                (TransferRow { in_flight: final(self)@[transfer_id].in_flight, ..old(
                    self,
                )@[transfer_id] }),
            )),
            r is Some ==> (final(self)@[transfer_id].in_flight@ =~= old(
                self,
            )@[transfer_id].in_flight@.remove(file_id@)),
    {
        match self.transfers.remove(&transfer_id) {
            Some(row) => {
                if row.is_outgoing {
                    self.transfers.insert(transfer_id, row);
                    proof {
                        assert(self@ =~= old(self)@);
                    }
                    return None;
                }
                let had = row.in_flight.contains(file_id);
                if had {
                    let mut row = row;
                    row.in_flight.remove(file_id);
                    self.transfers.insert(transfer_id, row);
                    Some(())
                } else {
                    self.transfers.insert(transfer_id, row);
                    proof {
                        assert(self@ =~= old(self)@);
                    }
                    None
                }
            },
            None => None,
        }
    }
}

} // verus!

