//! The directory-remap cache and the transfer manager.
//!
//! The cache answers, per transfer, which actual directory name stands
//! in for the top-level directory a sub-path proposes, so that every
//! file of one proposed directory lands in the same chosen directory on
//! disk. Whether a candidate path exists on disk is a question only the
//! embedder can answer; it hands the answers in as a vector of probe
//! results, one per candidate.

use vstd::prelude::*;

use crate::error::Error;
use crate::paths::{
    candidate_name, candidate_spec, join_components, join_spec, join_two, normalize_all,
    normalize_subpath, split_path, split_spec, subpath_ok,
};
use crate::server::{ClientReq, ServerReq};
use crate::sync::{all_alive, SyncStore, TransferState};
use crate::transfer::{IncomingTransfer, OutgoingTransfer};

verus! {

broadcast use vstd::std_specs::hash::group_hash_axioms, vstd::hash_map::group_hash_map_axioms;

/// The least index whose candidate does not exist on disk, per the probe
/// results; `-1` when every probed candidate exists.
pub open spec fn first_free(ex: Seq<bool>) -> int
    decreases ex.len(),
{
    if ex.len() == 0 {
        -1
    } else if !ex[0] {
        0
    } else {
        let r = first_free(ex.drop_first());
        if r < 0 {
            -1
        } else {
            r + 1
        }
    }
}

/// What `first_free` returns is the least free candidate: it is free,
/// and every candidate below it exists.
pub proof fn lemma_first_free_is_least(ex: Seq<bool>)
    requires
        first_free(ex) >= 0,
    ensures
        first_free(ex) < ex.len(),
        !ex[first_free(ex)],
        forall|m: int| 0 <= m < first_free(ex) ==> ex[m],
    decreases ex.len(),
{
    if ex.len() > 0 && ex[0] {
        lemma_first_free_is_least(ex.drop_first());
        assert forall|m: int| 0 <= m < first_free(ex) implies ex[m] by {
            if m > 0 {
                assert(ex.drop_first()[m - 1] == ex[m]);
            }
        }
    }
}

proof fn lemma_first_free_at(ex: Seq<bool>, j: int)
    requires
        0 <= j < ex.len(),
        !ex[j],
        forall|m: int| 0 <= m < j ==> ex[m],
    ensures
        first_free(ex) == j,
    decreases j,
{
    if j > 0 {
        lemma_first_free_at(ex.drop_first(), j - 1);
    }
}

proof fn lemma_first_free_none(ex: Seq<bool>)
    requires
        forall|m: int| 0 <= m < ex.len() ==> ex[m],
    ensures
        first_free(ex) == -1,
    decreases ex.len(),
{
    if ex.len() > 0 {
        lemma_first_free_none(ex.drop_first());
    }
}

/// The cache key under which the mapping of a proposed top-level
/// directory is recorded: the destination directory joined with the
/// normalized first component.
pub open spec fn compose_key(dest_dir: Seq<char>, probe: Seq<char>) -> Seq<char> {
    dest_dir + seq!['/'] + probe
}

/// Whether composing a final path has to probe the disk: the sub-path is
/// acceptable, names a directory, and its key is not in the cache yet.
pub open spec fn needs_probe(
    cache: Map<Seq<char>, Seq<char>>,
    dest_dir: Seq<char>,
    sub: Seq<Seq<char>>,
) -> bool {
    &&& subpath_ok(sub)
    &&& normalize_all(sub).len() > 1
    &&& !cache.contains_key(compose_key(dest_dir, normalize_all(sub)[0]))
}

/// What composing a final path returns, as a function of the cache, the
/// inputs, and the probe results: `None` when the sub-path is rejected,
/// otherwise the new cache and the mapped relative path.
pub open spec fn spec_compose(
    cache: Map<Seq<char>, Seq<char>>,
    dest_dir: Seq<char>,
    sub: Seq<Seq<char>>,
    ex: Seq<bool>,
) -> Option<(Map<Seq<char>, Seq<char>>, Seq<Seq<char>>)> {
    if !subpath_ok(sub) {
        None
    } else {
        let norm = normalize_all(sub);
        if norm.len() == 1 {
            Some((cache, norm))
        } else {
            let key = compose_key(dest_dir, norm[0]);
            if cache.contains_key(key) {
                Some((cache, norm.update(0, cache[key])))
            } else {
                let name = candidate_spec(norm[0], first_free(ex) as nat);
                Some((cache.insert(key, name), norm.update(0, name)))
            }
        }
    }
}

/// Two compositions under the same destination and the same proposed
/// top-level directory choose the same first component: the first call
/// records its choice, the second reuses it.
pub proof fn lemma_compose_deterministic(
    cache: Map<Seq<char>, Seq<char>>,
    dest_dir: Seq<char>,
    sub1: Seq<Seq<char>>,
    sub2: Seq<Seq<char>>,
    ex1: Seq<bool>,
    ex2: Seq<bool>,
)
    requires
        subpath_ok(sub1),
        subpath_ok(sub2),
        sub1.len() > 1,
        sub2.len() > 1,
        normalize_all(sub1)[0] == normalize_all(sub2)[0],
    ensures
        ({
            let r1 = spec_compose(cache, dest_dir, sub1, ex1);
            let r2 = spec_compose(r1.unwrap().0, dest_dir, sub2, ex2);
            r1 is Some && r2 is Some && r1.unwrap().1[0] == r2.unwrap().1[0]
        }),
{
    let norm1 = normalize_all(sub1);
    let norm2 = normalize_all(sub2);
    let key = compose_key(dest_dir, norm1[0]);
    let r1 = spec_compose(cache, dest_dir, sub1, ex1);
    let c1 = r1.unwrap().0;
    assert(c1.contains_key(key));
    assert(r1.unwrap().1[0] == c1[key]);
    let r2 = spec_compose(c1, dest_dir, sub2, ex2);
    assert(r2.unwrap().1[0] == c1[key]);
}

/// A composed path has exactly as many components as the sub-path, and
/// its last component is the normalized last sub-path component.
pub proof fn lemma_compose_shape(
    cache: Map<Seq<char>, Seq<char>>,
    dest_dir: Seq<char>,
    sub: Seq<Seq<char>>,
    ex: Seq<bool>,
)
    requires
        spec_compose(cache, dest_dir, sub, ex) is Some,
    ensures
        ({
            let r = spec_compose(cache, dest_dir, sub, ex).unwrap().1;
            r.len() == sub.len() && r[r.len() - 1] == crate::paths::normalize_spec(
                sub[sub.len() - 1],
            )
        }),
{
    let norm = normalize_all(sub);
    assert(norm.len() == sub.len());
    assert(norm[norm.len() - 1] == crate::paths::normalize_spec(sub[sub.len() - 1]));
}

/// The per-transfer cache from a proposed top-level destination
/// directory to the directory name actually chosen on disk.
pub struct DirMapping {
    mappings: vstd::hash_map::StringHashMap<String>,
}

impl View for DirMapping {
    type V = Map<Seq<char>, Seq<char>>;

    closed spec fn view(&self) -> Map<Seq<char>, Seq<char>> {
        Map::new(
            |k: Seq<char>| self.mappings@.contains_key(k),
            |k: Seq<char>| self.mappings@[k]@,
        )
    }
}

impl DirMapping {
    /// An empty cache.
    pub fn new() -> (r: Self)
        ensures
            r@ == Map::<Seq<char>, Seq<char>>::empty(),
    {
        let r = DirMapping { mappings: vstd::hash_map::StringHashMap::new() };
        proof {
            assert(r@ =~= Map::<Seq<char>, Seq<char>>::empty());
        }
        r
    }

    /// Whether the cache already holds a mapping under the key.
    pub fn has_mapping(&self, key: &str) -> (r: bool)
        ensures
            r == self@.contains_key(key@),
    {
        self.mappings.contains_key(key)
    }

    /// Composes the final relative path for a file of the transfer.
    ///
    /// An ordinary file (a one-component sub-path) maps to its
    /// normalized name and records nothing. A file inside a directory
    /// consults the cache under `dest_dir/<first component>`: a hit
    /// reuses the recorded name; a miss picks the first candidate
    /// `probe`, `probe(1)`, `probe(2)`, ... that does not exist on disk,
    /// per the probe results handed in, and records the choice.
    ///
    /// `probe_exists[j]` must answer whether candidate `j` exists on
    /// disk; when a probe is needed, the results must reach up to the
    /// first free candidate.
    pub fn compose_final_path(
        &mut self,
        dest_dir: &str,
        file_subpath: &Vec<String>,
        probe_exists: &Vec<bool>,
    ) -> (r: Result<Vec<String>, Error>)
        requires
            needs_probe(old(self)@, dest_dir@, file_subpath.deep_view()) ==> exists|j: int|
                0 <= j < probe_exists@.len() && !probe_exists@[j],
        ensures
            r is Ok <==> subpath_ok(file_subpath.deep_view()),
            r matches Err(e) ==> e matches Error::BadPath(_) && *final(self) == *old(self),
            r matches Ok(v) ==> (spec_compose(
                old(self)@,
                dest_dir@,
                file_subpath.deep_view(),
                probe_exists@,
            ) matches Some(pr) && final(self)@ == pr.0 && v.deep_view() == pr.1),
    {
        let norm = match normalize_subpath(file_subpath) {
            Ok(n) => n,
            Err(e) => {
                return Err(e);
            },
        };
        let ghost nspec = normalize_all(file_subpath.deep_view());
        if norm.len() == 1 {
            return Ok(norm);
        }
        let key = join_two(dest_dir, norm[0].as_str());
        proof {
            assert(norm.deep_view()[0] == norm@[0]@);
            assert(key@ == compose_key(dest_dir@, nspec[0]));
        }
        let cached = match self.mappings.get(key.as_str()) {
            Some(name) => Some(name.clone()),
            None => None,
        };
        let name: String = match cached {
            Some(name) => {
                proof {
                    assert(self@.contains_key(key@) && self@[key@] == name@);
                }
                name
            },
            None => {
                proof {
                    assert(!self@.contains_key(key@));
                    assert(needs_probe(self@, dest_dir@, file_subpath.deep_view()));
                }
                let n = probe_exists.len();
                let mut j: usize = 0;
                while j < n && probe_exists[j]
                    invariant
                        n == probe_exists@.len(),
                        0 <= j <= n,
                        forall|m: int| 0 <= m < j ==> probe_exists@[m],
                    decreases n - j,
                {
                    j += 1;
                }
                if j == n {
                    proof {
                        lemma_first_free_none(probe_exists@);
                        let w = choose|w: int| 0 <= w < n && !probe_exists@[w];
                        assert(probe_exists@[w]);
                        assert(false);
                    }
                }
                proof {
                    lemma_first_free_at(probe_exists@, j as int);
                }
                let name = candidate_name(norm[0].as_str(), j as u64);
                let ghost pre = self@;
                self.mappings.insert(key, name.clone());
                proof {
                    assert(self@ =~= pre.insert(key@, name@));
                }
                name
            },
        };
        let mut v: Vec<String> = Vec::new();
        v.push(name);
        let mut i: usize = 1;
        while i < norm.len()
            invariant
                1 <= i <= norm.len(),
                v@.len() == i,
                v@[0]@ == name@,
                forall|m: int| 1 <= m < i ==> v@[m]@ == norm@[m]@,
            decreases norm.len() - i,
    	{
            v.push(norm[i].clone());
            i += 1;
        }
        proof {
            assert forall|m: int| 0 <= m < v@.len() implies v.deep_view()[m] == nspec.update(
                0,
                name@,
            )[m] by {
                assert(v.deep_view()[m] == v@[m]@);
                if m >= 1 {
                    assert(norm.deep_view()[m] == norm@[m]@);
                }
            }
            assert(v.deep_view() =~~= nspec.update(0, name@));
        }
        Ok(v)
    }
}

/// What `register_preexisting_final_path` learns from one completed
/// file: for a sub-path of two or more components, the cache key is the
/// completed file's ancestor at the sub-path's depth with its leaf
/// replaced by the first sub-path component, and the value is that
/// ancestor's actual leaf. One-component sub-paths teach nothing.
pub open spec fn extract_spec(sub: Seq<Seq<char>>, full: Seq<char>) -> Option<
    (Seq<char>, Seq<char>),
> {
    if sub.len() < 2 {
        None
    } else {
        let segs = split_spec(full);
        let count = sub.len() - 1;
        if segs.len() <= count {
            None
        } else {
            let anc = segs.take(segs.len() - count);
            let name = anc.last();
            if name.len() == 0 {
                None
            } else {
                Some((join_spec(anc.update(anc.len() - 1, sub[0])), name))
            }
        }
    }
}

/// Reads a directory mapping out of a completed file's final path, per
/// `extract_spec`.
pub fn extract_directory_mapping(file_subpath: &Vec<String>, full_path: &str) -> (r: Option<
    (String, String),
>)
    ensures
        r is Some <==> extract_spec(file_subpath.deep_view(), full_path@) is Some,
        r matches Some(p) ==> extract_spec(file_subpath.deep_view(), full_path@) == Some(
            (p.0@, p.1@),
        ),
{
    if file_subpath.len() < 2 {
        return None;
    }
    let segs = split_path(full_path);
    let count = file_subpath.len() - 1;
    if segs.len() <= count {
        return None;
    }
    let anc_len = segs.len() - count;
    proof {
        assert(segs.deep_view()[anc_len - 1] == segs@[anc_len - 1]@);
    }
    let name = segs[anc_len - 1].clone();
    if name.as_str().is_empty() {
        return None;
    }
    let mut kv: Vec<String> = Vec::new();
    let mut i: usize = 0;
    while i < anc_len - 1
        invariant
            anc_len <= segs@.len(),
            0 <= i <= anc_len - 1,
            kv.deep_view() =~= segs.deep_view().take(anc_len as int - 1).take(i as int),
        decreases anc_len - 1 - i,
    {
        let ghost pre = kv;
        kv.push(segs[i].clone());
        proof {
            crate::strtable::lemma_deep_view_push(pre, kv, segs@[i as int]);
            assert(segs.deep_view()[i as int] == segs@[i as int]@);
            assert(kv.deep_view() =~= segs.deep_view().take(anc_len as int - 1).take(i + 1));
        }
        i += 1;
    }
    let ghost pre = kv;
    kv.push(file_subpath[0].clone());
    proof {
        crate::strtable::lemma_deep_view_push(pre, kv, file_subpath@[0]);
        assert(file_subpath.deep_view()[0] == file_subpath@[0]@);
        let segdv = segs.deep_view();
        let anc = segdv.take(anc_len as int);
        assert(kv.deep_view() =~~= anc.update(anc.len() - 1, file_subpath.deep_view()[0]));
    }
    let key = join_components(&kv);
    Some((key, name))
}

/// One completed file as persisted: its sub-path and the absolute path
/// it was finally placed at.
pub struct FinishedPath {
    pub subpath: Vec<String>,
    pub final_path: String,
}

/// The cache after every completed file has been registered, in order.
pub open spec fn spec_register_all(
    cache: Map<Seq<char>, Seq<char>>,
    fins: Seq<FinishedPath>,
) -> Map<Seq<char>, Seq<char>>
    decreases fins.len(),
{
    if fins.len() == 0 {
        cache
    } else {
        let c2 = spec_register_all(cache, fins.drop_last());
        match extract_spec(fins.last().subpath.deep_view(), fins.last().final_path@) {
            Some(kv) => c2.insert(kv.0, kv.1),
            None => c2,
        }
    }
}

impl DirMapping {
    /// Seeds the cache from one previously completed file, so that
    /// resuming another file of the same directory reuses the suffix
    /// already chosen.
    pub fn register_preexisting_final_path(&mut self, file_subpath: &Vec<String>, full_path: &str)
        ensures
            final(self)@ == (match extract_spec(file_subpath.deep_view(), full_path@) {
                Some(kv) => old(self)@.insert(kv.0, kv.1),
                None => old(self)@,
            }),
    {
        match extract_directory_mapping(file_subpath, full_path) {
            Some(kv) => {
                let ghost pre = self@;
                let (k, v) = kv;
                self.mappings.insert(k, v);
                proof {
                    assert(self@ =~= pre.insert(k@, v@));
                }
            },
            None => {},
        }
    }

    /// Seeds the cache from every completed file of a resumed transfer.
    pub fn register_finished_paths(&mut self, finished: &Vec<FinishedPath>)
        ensures
            final(self)@ == spec_register_all(old(self)@, finished@),
    {
        let mut i: usize = 0;
        while i < finished.len()
            invariant
                0 <= i <= finished@.len(),
                self@ == spec_register_all(old(self)@, finished@.take(i as int)),
            decreases finished@.len() - i,
        {
            proof {
                assert(finished@.take(i + 1).drop_last() =~= finished@.take(i as int));
                assert(finished@.take(i + 1).last() == finished@[i as int]);
            }
            self.register_preexisting_final_path(
                &finished[i].subpath,
                finished[i].final_path.as_str(),
            );
            i += 1;
        }
        proof {
            assert(finished@.take(finished@.len() as int) =~= finished@);
        }
    }
}

/// The live in-memory record of one incoming transfer: its metadata,
/// the signaling channel to the running session (when one runs), and
/// the directory-remap cache.
pub struct IncomingState {
    pub xfer: IncomingTransfer,
    pub conn: Option<tokio::sync::mpsc::UnboundedSender<ServerReq>>,
    pub dir_mappings: DirMapping,
}

/// The live in-memory record of one outgoing transfer.
pub struct OutgoingState {
    pub xfer: OutgoingTransfer,
    pub conn: Option<tokio::sync::mpsc::UnboundedSender<ClientReq>>,
}

/// The registry of live transfers, one map per direction, keyed by the
/// transfer UUID. The embedder serializes access behind its own lock.
pub struct TransferManager {
    incoming: vstd::hash_map::HashMapWithView<u128, IncomingState>,
    outgoing: vstd::hash_map::HashMapWithView<u128, OutgoingState>,
}

/// Every transfer the manager knows has sync rows in the store: the
/// registry never runs ahead of the durable record.
pub open spec fn synced(m: TransferManager, s: SyncStore) -> bool {
    &&& forall|t: u128| #[trigger] m.incoming_map().contains_key(t) ==> s@.contains_key(t)
    &&& forall|t: u128| #[trigger] m.outgoing_map().contains_key(t) ==> s@.contains_key(t)
}

/// Adding to the registry keeps it synced with the store, as long as
/// every added transfer has its sync rows and no store row disappears.
pub proof fn lemma_synced_on_add(
    pre_m: TransferManager,
    post_m: TransferManager,
    pre_s: SyncStore,
    post_s: SyncStore,
    added: Set<u128>,
)
    requires
        synced(pre_m, pre_s),
        forall|t: u128| #[trigger] post_m.incoming_map().contains_key(t)
            ==> pre_m.incoming_map().contains_key(t) || added.contains(t),
        forall|t: u128| #[trigger] post_m.outgoing_map().contains_key(t)
            ==> pre_m.outgoing_map().contains_key(t) || added.contains(t),
        forall|t: u128| added.contains(t) ==> #[trigger] post_s@.contains_key(t),
        forall|t: u128| #[trigger] pre_s@.contains_key(t) ==> post_s@.contains_key(t),
    ensures
        synced(post_m, post_s),
{
}

/// Clearing a transfer keeps the registry synced with the store, as
/// long as the transfer leaves both registry maps no later than its
/// sync rows.
pub proof fn lemma_synced_on_clear(
    pre_m: TransferManager,
    post_m: TransferManager,
    pre_s: SyncStore,
    post_s: SyncStore,
    id: u128,
)
    requires
        synced(pre_m, pre_s),
        post_m.incoming_map() == pre_m.incoming_map().remove(id),
        post_m.outgoing_map() == pre_m.outgoing_map().remove(id),
        post_s@ == pre_s@.remove(id),
    ensures
        synced(post_m, post_s),
{
    assert forall|t: u128| #[trigger] post_m.incoming_map().contains_key(t) implies
        post_s@.contains_key(t) by {
        assert(pre_m.incoming_map().contains_key(t) && t != id);
    }
    assert forall|t: u128| #[trigger] post_m.outgoing_map().contains_key(t) implies
        post_s@.contains_key(t) by {
        assert(pre_m.outgoing_map().contains_key(t) && t != id);
    }
}

/// One transfer to restore into the registry at startup: its persisted
/// metadata and its already completed files.
pub struct TransferToResume {
    pub xfer: IncomingTransfer,
    pub finished: Vec<FinishedPath>,
}

/// What the startup restore leaves in the registry for one listed
/// transfer: an entry under its UUID carrying the same metadata (the
/// same peer and the same files by their mathematical values), no
/// session channel yet, and the remap cache seeded from its completed
/// files.
pub open spec fn restored_entry(m: Map<u128, IncomingState>, t: TransferToResume) -> bool {
    &&& m.contains_key(t.xfer.id)
    &&& m[t.xfer.id].xfer.id == t.xfer.id
    &&& m[t.xfer.id].xfer.peer@ == t.xfer.peer@
    &&& crate::transfer::recvs_iv(m[t.xfer.id].xfer.files@) == crate::transfer::recvs_iv(
        t.xfer.files@,
    )
    &&& m[t.xfer.id].conn is None
    &&& m[t.xfer.id].dir_mappings@ == spec_register_all(
        Map::<Seq<char>, Seq<char>>::empty(),
        t.finished@,
    )
}

impl TransferManager {
    /// The live incoming transfers.
    pub closed spec fn incoming_map(self) -> Map<u128, IncomingState> {
        self.incoming@
    }

    /// The live outgoing transfers.
    pub closed spec fn outgoing_map(self) -> Map<u128, OutgoingState> {
        self.outgoing@
    }

    /// An empty registry.
    pub fn new() -> (r: Self)
        ensures
            r.incoming_map() == Map::<u128, IncomingState>::empty(),
            r.outgoing_map() == Map::<u128, OutgoingState>::empty(),
    {
        TransferManager {
            incoming: vstd::hash_map::HashMapWithView::new(),
            outgoing: vstd::hash_map::HashMapWithView::new(),
        }
    }

    /// Registers a new incoming transfer: the sync rows are written
    /// first, and only on success does the in-memory entry appear. A
    /// transfer already registered or already recorded is refused.
    pub fn insert_incoming(
        &mut self,
        store: &mut SyncStore,
        xfer: IncomingTransfer,
        conn: Option<tokio::sync::mpsc::UnboundedSender<ServerReq>>,
    ) -> (r: Result<(), Error>)
        requires
            old(store).wf(),
        ensures
            final(store).wf(),
            r is Ok <==> !old(self).incoming_map().contains_key(xfer.id) && !old(store)@.contains_key(xfer.id),
            r matches Err(e) ==> e is BadTransferState && final(self).incoming_map() == old(self).incoming_map() && final(store)@ == old(store)@,
            final(self).outgoing_map() == old(self).outgoing_map(),
            r is Ok ==> (final(store)@ =~= old(store)@.insert(xfer.id, final(store)@[xfer.id]))
                && final(store)@[xfer.id].local_state == TransferState::New && final(store)@[xfer.id].remote_state == TransferState::New && !final(store)@[xfer.id].is_outgoing
                && (final(store)@[xfer.id].files@ =~= all_alive(
                crate::transfer::recv_ids(xfer.files@),
            )),
            r is Ok ==> (final(self).incoming_map() =~= old(self).incoming_map().insert(
                xfer.id,
                final(self).incoming_map()[xfer.id],
            )) && final(self).incoming_map()[xfer.id].xfer == xfer && final(self).incoming_map()[xfer.id].conn == conn && final(self).incoming_map()[xfer.id].dir_mappings@ == Map::<Seq<char>, Seq<char>>::empty(),
    {
        if self.incoming.contains_key(&xfer.id) {
            return Err(Error::BadTransferState);
        }
        let ids = xfer.file_ids();
        match store.insert_transfer(xfer.id, true, &ids) {
            Ok(()) => {},
            Err(e) => {
                return Err(e);
            },
        }
        let id = xfer.id;
        self.incoming.insert(id, IncomingState { xfer, conn, dir_mappings: DirMapping::new() });
        Ok(())
    }

    /// Registers a new outgoing transfer, under the same rules as the
    /// incoming side.
    pub fn insert_outgoing(
        &mut self,
        store: &mut SyncStore,
        xfer: OutgoingTransfer,
        conn: Option<tokio::sync::mpsc::UnboundedSender<ClientReq>>,
    ) -> (r: Result<(), Error>)
        requires
            old(store).wf(),
        ensures
            final(store).wf(),
            r is Ok <==> !old(self).outgoing_map().contains_key(xfer.id) && !old(store)@.contains_key(xfer.id),
            r matches Err(e) ==> e is BadTransferState && final(self).outgoing_map() == old(self).outgoing_map() && final(store)@ == old(store)@,
            final(self).incoming_map() == old(self).incoming_map(),
            r is Ok ==> (final(store)@ =~= old(store)@.insert(xfer.id, final(store)@[xfer.id]))
                && final(store)@[xfer.id].local_state == TransferState::New && final(store)@[xfer.id].remote_state == TransferState::New && final(store)@[xfer.id].is_outgoing,
            r is Ok ==> (final(self).outgoing_map() =~= old(self).outgoing_map().insert(
                xfer.id,
                final(self).outgoing_map()[xfer.id],
            )) && final(self).outgoing_map()[xfer.id].xfer == xfer && final(self).outgoing_map()[xfer.id].conn == conn,
    {
        if self.outgoing.contains_key(&xfer.id) {
            return Err(Error::BadTransferState);
        }
        match store.insert_transfer(xfer.id, false, &xfer.file_ids) {
            Ok(()) => {},
            Err(e) => {
                return Err(e);
            },
        }
        let id = xfer.id;
        self.outgoing.insert(id, OutgoingState { xfer, conn });
        Ok(())
    }

    /// The live entry of an incoming transfer.
    pub fn get_incoming(&self, uuid: u128) -> (r: Option<&IncomingState>)
        ensures
            match r {
                Some(st) => self.incoming_map().contains_key(uuid) && *st
                    == self.incoming_map()[uuid],
                None => !self.incoming_map().contains_key(uuid),
            },
    {
        self.incoming.get(&uuid)
    }

    /// The signaling channel of a live incoming transfer, if a session
    /// is attached.
    pub fn get_channel(&self, uuid: u128) -> (r: Option<
        &tokio::sync::mpsc::UnboundedSender<ServerReq>,
    >)
        ensures
            r is Some <==> self.incoming_map().contains_key(uuid)
                && self.incoming_map()[uuid].conn is Some,
            r matches Some(c) ==> self.incoming_map()[uuid].conn == Some(*c),
    {
        match self.incoming.get(&uuid) {
            Some(st) => st.conn.as_ref(),
            None => None,
        }
    }

    /// Drops the in-memory entry of an incoming transfer. The sync rows
    /// stay; they are cleared only on graceful shutdown of the session.
    pub fn cancel_incoming(&mut self, uuid: u128) -> (r: bool)
        ensures
            r == old(self).incoming_map().contains_key(uuid),
            (final(self).incoming_map() =~= old(self).incoming_map().remove(uuid)),
            final(self).outgoing_map() == old(self).outgoing_map(),
    {
        match self.incoming.remove(&uuid) {
            Some(_) => true,
            None => {
                proof {
                    assert(self.incoming_map() =~= old(self).incoming_map().remove(uuid));
                }
                false
            },
        }
    }

    /// Drops the in-memory entry of an outgoing transfer.
    pub fn cancel_outgoing(&mut self, uuid: u128) -> (r: bool)
        ensures
            r == old(self).outgoing_map().contains_key(uuid),
            (final(self).outgoing_map() =~= old(self).outgoing_map().remove(uuid)),
            final(self).incoming_map() == old(self).incoming_map(),
    {
        match self.outgoing.remove(&uuid) {
            Some(_) => true,
            None => {
                proof {
                    assert(self.outgoing_map() =~= old(self).outgoing_map().remove(uuid));
                }
                false
            },
        }
    }

    /// Attaches a session's signaling channel to a live incoming
    /// transfer.
    pub fn set_incoming_conn(
        &mut self,
        uuid: u128,
        conn: tokio::sync::mpsc::UnboundedSender<ServerReq>,
    ) -> (r: bool)
        ensures
            r == old(self).incoming_map().contains_key(uuid),
            !r ==> final(self).incoming_map() == old(self).incoming_map(),
            r ==> (final(self).incoming_map() =~= old(self).incoming_map().insert(
                uuid,
                final(self).incoming_map()[uuid],
            )) && final(self).incoming_map()[uuid].conn == Some(conn) && final(self).incoming_map()[uuid].xfer == old(self).incoming_map()[uuid].xfer && final(self).incoming_map()[uuid].dir_mappings@ == old(self).incoming_map()[uuid].dir_mappings@,
            final(self).outgoing_map() == old(self).outgoing_map(),
    {
        match self.incoming.remove(&uuid) {
            Some(st) => {
                let st2 = IncomingState { conn: Some(conn), ..st };
                self.incoming.insert(uuid, st2);
                true
            },
            None => {
                proof {
                    assert(self.incoming_map() =~= old(self).incoming_map());
                }
                false
            },
        }
    }

    /// Proxies to the directory-remap cache of a live incoming
    /// transfer; a transfer no longer registered means the task lost
    /// its race with a cancellation.
    pub fn apply_dir_mapping(
        &mut self,
        uuid: u128,
        dest_dir: &str,
        file_subpath: &Vec<String>,
        probe_exists: &Vec<bool>,
    ) -> (r: Result<Vec<String>, Error>)
        requires
            old(self).incoming_map().contains_key(uuid) && needs_probe(
                old(self).incoming_map()[uuid].dir_mappings@,
                dest_dir@,
                file_subpath.deep_view(),
            ) ==> exists|j: int| 0 <= j < probe_exists@.len() && !probe_exists@[j],
        ensures
            final(self).outgoing_map() == old(self).outgoing_map(),
            !old(self).incoming_map().contains_key(uuid) ==> (r matches Err(e) && e is Canceled
                && final(self).incoming_map() == old(self).incoming_map()),
            old(self).incoming_map().contains_key(uuid) ==> (r is Ok <==> subpath_ok(
                file_subpath.deep_view(),
            )),
            old(self).incoming_map().contains_key(uuid) ==> ((r matches Err(e) && e matches
                Error::BadPath(_)) ==> final(self).incoming_map() == old(self).incoming_map()),
            old(self).incoming_map().contains_key(uuid) ==> (r matches Ok(v) ==> (spec_compose(
                old(self).incoming_map()[uuid].dir_mappings@,
                dest_dir@,
                file_subpath.deep_view(),
                probe_exists@,
            ) matches Some(pr) && v.deep_view() == pr.1)),
            old(self).incoming_map().contains_key(uuid) && r is Ok ==> (final(self).incoming_map() =~= old(self).incoming_map().insert(
                uuid,
                final(self).incoming_map()[uuid],
            )),
            old(self).incoming_map().contains_key(uuid) && r is Ok ==> final(self).incoming_map()[uuid].dir_mappings@ == spec_compose(
                old(self).incoming_map()[uuid].dir_mappings@,
                dest_dir@,
                file_subpath.deep_view(),
                probe_exists@,
            ).unwrap().0,
            old(self).incoming_map().contains_key(uuid) && r is Ok ==> final(self).incoming_map()[uuid].xfer == old(self).incoming_map()[uuid].xfer && final(self).incoming_map()[uuid].conn == old(self).incoming_map()[uuid].conn,
    {
        match self.incoming.remove(&uuid) {
            Some(st) => {
                let mut st = st;
                let res = st.dir_mappings.compose_final_path(
                    dest_dir,
                    file_subpath,
                    probe_exists,
                );
                let ghost st_after = st;
                self.incoming.insert(uuid, st);
                proof {
                    if res is Err {
                        assert(st_after == old(self).incoming_map()[uuid]);
                        assert(self.incoming_map() =~= old(self).incoming_map());
                    } else {
                        assert(self.incoming_map() =~= old(self).incoming_map().insert(
                            uuid,
                            st_after,
                        ));
                    }
                }
                res
            },
            None => {
                proof {
                    assert(self.incoming_map() =~= old(self).incoming_map());
                }
                Err(Error::Canceled)
            },
        }
    }

    /// Restores transfers into the registry at startup: each appears
    /// without a session channel, its remap cache seeded from its
    /// completed files. Every restored transfer must already have sync
    /// rows, so the registry stays synced with the store.
    pub fn resume(&mut self, store: &SyncStore, transfers: &Vec<TransferToResume>)
        requires
            forall|i: int| 0 <= i < transfers@.len() ==> store@.contains_key(
                (#[trigger] transfers@[i]).xfer.id,
            ),
            forall|i: int, j: int|
                0 <= i < j < transfers@.len() ==> (#[trigger] transfers@[i]).xfer.id != (
                #[trigger] transfers@[j]).xfer.id,
        ensures
            final(self).outgoing_map() == old(self).outgoing_map(),
            forall|t: u128| #[trigger] final(self).incoming_map().contains_key(t) <==> old(self).incoming_map().contains_key(t) || exists|i: int|
                0 <= i < transfers@.len() && (#[trigger] transfers@[i]).xfer.id == t,
            forall|i: int| 0 <= i < transfers@.len() ==> restored_entry(
                final(self).incoming_map(),
                #[trigger] transfers@[i],
            ),
            synced(*old(self), *store) ==> synced(*final(self), *store),
    {
        let mut i: usize = 0;
        while i < transfers.len()
            invariant
                0 <= i <= transfers@.len(),
                forall|k: int| 0 <= k < transfers@.len() ==> store@.contains_key(
                    (#[trigger] transfers@[k]).xfer.id,
                ),
                forall|k: int, l: int|
                    0 <= k < l < transfers@.len() ==> (#[trigger] transfers@[k]).xfer.id != (
                    #[trigger] transfers@[l]).xfer.id,
                self.outgoing_map() == old(self).outgoing_map(),
                forall|t: u128| #[trigger] self.incoming_map().contains_key(t) <==> old(self).incoming_map().contains_key(t) || exists|k: int|
                    0 <= k < i && (#[trigger] transfers@[k]).xfer.id == t,
                forall|k: int| 0 <= k < i ==> restored_entry(
                    self.incoming_map(),
                    #[trigger] transfers@[k],
                ),
            decreases transfers@.len() - i,
        {
            let t = &transfers[i];
            let xfer = t.xfer.duplicate();
            let mut dm = DirMapping::new();
            dm.register_finished_paths(&t.finished);
            let id = xfer.id;
            let ghost gx = xfer;
            let ghost gdm = dm;
            let ghost loop_map = self.incoming_map();
            self.incoming.insert(id, IncomingState { xfer, conn: None, dir_mappings: dm });
            proof {
                let ghost pre_map = old(self).incoming_map();
                assert forall|t2: u128| #[trigger] self.incoming_map().contains_key(t2) implies
                    pre_map.contains_key(t2) || exists|k: int|
                    0 <= k < i + 1 && (#[trigger] transfers@[k]).xfer.id == t2 by {
                    if t2 == id {
                        assert(transfers@[i as int].xfer.id == t2);
                    } else {
                        assert(loop_map.contains_key(t2));
                        if !pre_map.contains_key(t2) {
                            let k = choose|k: int|
                                0 <= k < i && (#[trigger] transfers@[k]).xfer.id == t2;
                            assert(0 <= k < i + 1 && transfers@[k].xfer.id == t2);
                        }
                    }
                }
                assert forall|t2: u128|
                    pre_map.contains_key(t2) || exists|k: int|
                        0 <= k < i + 1 && (#[trigger] transfers@[k]).xfer.id == t2 implies
                    #[trigger] self.incoming_map().contains_key(t2) by {
                    if pre_map.contains_key(t2) {
                        assert(loop_map.contains_key(t2));
                    } else {
                        let k = choose|k: int|
                            0 <= k < i + 1 && (#[trigger] transfers@[k]).xfer.id == t2;
                        if k < i {
                            assert(exists|k2: int|
                                0 <= k2 < i && (#[trigger] transfers@[k2]).xfer.id == t2);
                            assert(loop_map.contains_key(t2));
                        } else {
                            assert(t2 == id);
                        }
                    }
                }
                assert forall|k: int| 0 <= k < i + 1 implies restored_entry(
                    self.incoming_map(),
                    #[trigger] transfers@[k],
                ) by {
                    if k == i {
                        let e = self.incoming_map()[id];
                        assert(e == (IncomingState { xfer: gx, conn: None, dir_mappings: gdm }));
                        let lhs = crate::transfer::recvs_iv(gx.files@);
                        let rhs = crate::transfer::recvs_iv(transfers@[k].xfer.files@);
                        assert forall|m: int| 0 <= m < lhs.len() implies lhs[m] == rhs[m] by {
                            assert(gx.files@[m].iv() == transfers@[k].xfer.files@[m].iv());
                        }
                        assert(lhs =~= rhs);
                    } else {
                        assert(restored_entry(loop_map, transfers@[k]));
                        assert(transfers@[k].xfer.id != transfers@[i as int].xfer.id);
                    }
                }
            }
            i += 1;
        }
    }
}

impl Default for TransferManager {
    /// An empty registry.
    fn default() -> (r: Self)
        ensures
            r.incoming_map() == Map::<u128, IncomingState>::empty(),
            r.outgoing_map() == Map::<u128, OutgoingState>::empty(),
    {
        TransferManager::new()
    }
}

impl Default for DirMapping {
    /// An empty cache.
    fn default() -> (r: Self)
        ensures
            r@ == Map::<Seq<char>, Seq<char>>::empty(),
    {
        DirMapping::new()
    }
}

} // verus!
