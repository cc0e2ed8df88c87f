//! The receiver session's decision logic: admission of a connection,
//! the select-loop priority, the per-file streaming state machine with
//! its progress rules, terminal events, and the validation of a resumed
//! transfer against persisted metadata.
//!
//! The socket, the timers and the spawned tasks live with the embedder;
//! the functions here take what was observed and say what must happen.

use vstd::multiset::Multiset;
use vstd::prelude::*;

use crate::chan::send_msg;
use crate::error::Error;
use crate::manager::TransferManager;
use crate::paths::{str_eq, MAX_FILENAME_LENGTH};
use crate::sync::{wants_reject, SyncStore, TransferState};
use crate::transfer::{
    infos_iv, recv_ids, recvs_iv, FileToRecv, IncomingFileInfo, IncomingTransfer,
    IncomingTransferInfo,
};

verus! {

/// A request from the embedder to a running receiver session.
pub enum ServerReq {
    Download { task: Box<FileXferTask> },
    Cancel { file: String },
    Reject { file: String },
}

/// A request from the embedder to a running outgoing session.
pub enum ClientReq {
    Cancel { file: String },
    Reject { file: String },
}

/// One file-download task: the file, the transfer it belongs to, and
/// the destination base directory.
pub struct FileXferTask {
    pub file: FileToRecv,
    pub xfer: IncomingTransfer,
    pub base_dir: String,
}

impl FileXferTask {
    /// Builds a download task.
    pub fn new(file: FileToRecv, xfer: IncomingTransfer, base_dir: String) -> (r: Self)
        ensures
            r.file == file,
            r.xfer == xfer,
            r.base_dir == base_dir,
    {
        FileXferTask { file, xfer, base_dir }
    }
}

/// The protocol versions a peer may ask for on the connection path.
#[derive(Debug, Clone, Copy, PartialEq, Eq, Structural)]
pub enum Version {
    V1,
    V2,
    V4,
    V5,
}

impl Version {
    /// Whether the version demands a signed authorization header.
    pub open spec fn spec_requires_auth(self) -> bool {
        match self {
            Version::V1 => false,
            Version::V2 => false,
            Version::V4 => true,
            Version::V5 => true,
        }
    }

    /// Whether the version demands a signed authorization header:
    /// the first two versions predate authentication.
    pub fn requires_auth(self) -> (r: bool)
        ensures
            r == self.spec_requires_auth(),
    {
        match self {
            Version::V1 => false,
            Version::V2 => false,
            Version::V4 => true,
            Version::V5 => true,
        }
    }

    /// The version a path segment names, if any.
    pub fn from_path_segment(s: &str) -> (r: Option<Version>)
        ensures
            r matches Some(v) ==> v == Version::V1 && s@ == "v1"@ || v == Version::V2 && s@
                == "v2"@ || v == Version::V4 && s@ == "v4"@ || v == Version::V5 && s@ == "v5"@,
            r is None ==> s@ != "v1"@ && s@ != "v2"@ && s@ != "v4"@ && s@ != "v5"@,
    {
        if str_eq(s, "v1") {
            Some(Version::V1)
        } else if str_eq(s, "v2") {
            Some(Version::V2)
        } else if str_eq(s, "v4") {
            Some(Version::V4)
        } else if str_eq(s, "v5") {
            Some(Version::V5)
        } else {
            None
        }
    }
}

/// What happens to a connection attempt before any transfer work:
/// admitted, rejected with a nonce challenge, rejected outright, or
/// rejected for exceeding the per-address request quota.
#[derive(Debug, Clone, Copy, PartialEq, Eq, Structural)]
pub enum Verdict {
    Accept,
    Challenge,
    Unauthorized,
    TooManyRequests,
}

/// Decides a connection attempt. The rate limit is checked first; then,
/// for versions that demand authentication: a request without an
/// authorization header is challenged with a fresh nonce, one without a
/// cached nonce or with a header that does not validate is rejected.
pub fn connection_verdict(
    version: Version,
    rate_ok: bool,
    has_auth_header: bool,
    has_cached_nonce: bool,
    authorized: bool,
) -> (r: Verdict)
    ensures
        r == Verdict::TooManyRequests <==> !rate_ok,
        r == Verdict::Accept <==> rate_ok && (!version.spec_requires_auth() || (has_auth_header
            && has_cached_nonce && authorized)),
        r == Verdict::Challenge <==> rate_ok && version.spec_requires_auth() && !has_auth_header,
        r == Verdict::Unauthorized <==> rate_ok && version.spec_requires_auth() && has_auth_header
            && !(has_cached_nonce && authorized),
{
    if !rate_ok {
        Verdict::TooManyRequests
    } else if !version.requires_auth() {
        Verdict::Accept
    } else if !has_auth_header {
        Verdict::Challenge
    } else if !has_cached_nonce {
        Verdict::Unauthorized
    } else if !authorized {
        Verdict::Unauthorized
    } else {
        Verdict::Accept
    }
}

impl Verdict {
    /// The HTTP status a rejected connection is answered with; an
    /// admitted one proceeds to the protocol upgrade instead.
    pub fn http_status(self) -> (r: Option<u16>)
        ensures
            self == Verdict::Accept <==> r is None,
            self == Verdict::Challenge || self == Verdict::Unauthorized <==> r == Some(401u16),
            self == Verdict::TooManyRequests <==> r == Some(429u16),
    {
        match self {
            Verdict::Accept => None,
            Verdict::Challenge => Some(401),
            Verdict::Unauthorized => Some(401),
            Verdict::TooManyRequests => Some(429),
        }
    }
}

/// The four event sources of a running session, in their priority
/// order: embedder requests first, then inbound frames, then outbound
/// frames, then the liveness ping.
#[derive(Debug, Clone, Copy, PartialEq, Eq, Structural)]
pub enum LoopSource {
    Api,
    Inbound,
    Outbound,
    Ping,
}

/// Picks which ready source the session loop serves next: always the
/// readiest by priority, so a backlog of frames never delays a local
/// cancellation.
pub fn next_source(api: bool, inbound: bool, outbound: bool, ping: bool) -> (r: Option<
    LoopSource,
>)
    ensures
        r is Some <==> api || inbound || outbound || ping,
        r == Some(LoopSource::Api) <==> api,
        r == Some(LoopSource::Inbound) <==> !api && inbound,
        r == Some(LoopSource::Outbound) <==> !api && !inbound && outbound,
        r == Some(LoopSource::Ping) <==> !api && !inbound && !outbound && ping,
{
    if api {
        Some(LoopSource::Api)
    } else if inbound {
        Some(LoopSource::Inbound)
    } else if outbound {
        Some(LoopSource::Outbound)
    } else if ping {
        Some(LoopSource::Ping)
    } else {
        None
    }
}

/// An event the engine reports to the embedder.
pub enum Event {
    RequestReceived { transfer_id: u128 },
    FileDownloadStarted { transfer_id: u128, file_id: String, base_dir: String },
    FileDownloadProgress { transfer_id: u128, file_id: String, bytes_received: u64 },
    FileDownloadSuccess { transfer_id: u128, file_id: String, final_path: String },
    FileDownloadFailed { transfer_id: u128, file_id: String, reason: Error },
}

/// Every `REPORT_PROGRESS_THRESHOLD` received bytes, a download task
/// reports progress.
pub const REPORT_PROGRESS_THRESHOLD: u64 = 64 * 1024;

/// The streaming state of one file download: how many bytes have
/// arrived, and at which count progress was last reported.
#[derive(Debug, Clone, Copy, PartialEq, Eq, Structural)]
pub struct FileStream {
    pub size: u64,
    pub bytes_received: u64,
    pub last_progress: u64,
}

impl FileStream {
    /// The received bytes never pass the declared size, and progress is
    /// only ever reported for bytes that have arrived.
    pub open spec fn wf(self) -> bool {
        &&& self.bytes_received <= self.size
        &&& self.last_progress <= self.bytes_received
    }

    /// Starts streaming at the negotiated resume offset.
    pub fn begin(offset: u64, size: u64) -> (r: Self)
        requires
            offset <= size,
        ensures
            r.wf(),
            r == (FileStream { size, bytes_received: offset, last_progress: offset }),
    {
        FileStream { size, bytes_received: offset, last_progress: offset }
    }

    /// Whether every declared byte has arrived.
    pub fn is_complete(&self) -> (r: bool)
        ensures
            r == (self.bytes_received == self.size),
    {
        self.bytes_received == self.size
    }

    /// Takes one chunk. A chunk that would push the received count past
    /// the declared size is rejected without changing anything; an
    /// accepted chunk advances the count and says whether progress is
    /// due for reporting.
    pub fn on_chunk(&mut self, chunk_len: usize) -> (r: Result<bool, Error>)
        requires
            old(self).wf(),
        ensures
            final(self).wf(),
            r is Ok <==> old(self).bytes_received + chunk_len <= old(self).size,
            r matches Err(e) ==> e is MismatchedSize && *final(self) == *old(self),
            r matches Ok(emit) ==> spec_chunk(*old(self), chunk_len as u64) == Some(
                (*final(self), emit),
            ),
            r is Ok ==> final(self).bytes_received == old(self).bytes_received + chunk_len
                && final(self).size == old(self).size,
    {
        let len = chunk_len as u64;
        if len > self.size - self.bytes_received {
            return Err(Error::MismatchedSize);
        }
        self.bytes_received = self.bytes_received + len;
        let emit = self.bytes_received - self.last_progress >= REPORT_PROGRESS_THRESHOLD;
        if emit {
            self.last_progress = self.bytes_received;
        }
        Ok(emit)
    }
}

/// What one accepted chunk does to the streaming state, and whether it
/// makes progress due: `None` when the chunk would overrun the declared
/// size.
pub open spec fn spec_chunk(s: FileStream, len: u64) -> Option<(FileStream, bool)> {
    if s.bytes_received + len > s.size {
        None
    } else {
        let b = (s.bytes_received + len) as u64;
        let emit = s.last_progress + REPORT_PROGRESS_THRESHOLD <= b;
        Some(
            (
                FileStream {
                    size: s.size,
                    bytes_received: b,
                    last_progress: if emit {
                        b
                    } else {
                        s.last_progress
                    },
                },
                emit,
            ),
        )
    }
}

/// The streaming state after a whole sequence of chunks, `None` as soon
/// as one of them overruns the declared size.
pub open spec fn run_chunks(s: FileStream, lens: Seq<u64>) -> Option<FileStream>
    decreases lens.len(),
{
    if lens.len() == 0 {
        Some(s)
    } else {
        match spec_chunk(s, lens[0]) {
            Some(pr) => run_chunks(pr.0, lens.drop_first()),
            None => None,
        }
    }
}

/// Progress is monotone and bounded: across any sequence of accepted
/// chunks, the received count (which is what every progress event
/// carries) never decreases, never passes the declared size, and the
/// size itself never changes.
pub proof fn lemma_progress_monotone(s: FileStream, lens: Seq<u64>)
    requires
        s.wf(),
        run_chunks(s, lens) is Some,
    ensures
        run_chunks(s, lens).unwrap().wf(),
        run_chunks(s, lens).unwrap().bytes_received >= s.bytes_received,
        run_chunks(s, lens).unwrap().bytes_received <= s.size,
        run_chunks(s, lens).unwrap().size == s.size,
    decreases lens.len(),
{
    if lens.len() > 0 {
        let s2 = spec_chunk(s, lens[0]).unwrap().0;
        lemma_progress_monotone(s2, lens.drop_first());
    }
}

/// The one terminal event of a download task: success with the final
/// path, failure with the reason, or silence for a clean cancel.
pub fn terminal_event(transfer_id: u128, file_id: String, result: Result<String, Error>) -> (r:
    Option<Event>)
    ensures
        r == (match result {
            Ok(p) => Some((Event::FileDownloadSuccess { transfer_id, file_id, final_path: p })),
            Err(reason) => if reason is Canceled {
                None
            } else {
                Some((Event::FileDownloadFailed { transfer_id, file_id, reason }))
            },
        }),
{
    match result {
        Ok(final_path) => Some(Event::FileDownloadSuccess { transfer_id, file_id, final_path }),
        Err(reason) => {
            if matches!(reason, Error::Canceled) {
                None
            } else {
                Some(Event::FileDownloadFailed { transfer_id, file_id, reason })
            }
        },
    }
}

/// The filename of a path: everything after the last separator.
pub open spec fn spec_filename(s: Seq<char>) -> Seq<char> {
    s.skip(crate::paths::last_sep(s) + 1)
}

/// Checks the temporary file's name against the filename length cap.
pub fn validate_tmp_location_path(tmp_location: &str) -> (r: Result<(), Error>)
    ensures
        r is Ok <==> spec_filename(tmp_location@).len() <= MAX_FILENAME_LENGTH,
        r matches Err(e) ==> e is FilenameTooLong,
{
    let n = tmp_location.unicode_len();
    let mut j: usize = n;
    let mut sep: usize = 0;
    let mut found = false;
    while j > 0 && !found
        invariant
            n == tmp_location@.len(),
            0 <= j <= n,
            !found ==> forall|m: int| j <= m < n ==> tmp_location@[m] != '/',
            found ==> 0 <= sep < n && tmp_location@[sep as int] == '/' && forall|m: int|
                sep < m < n ==> tmp_location@[m] != '/',
        decreases j, (if found { 0int } else { 1int }),
    {
        if tmp_location.get_char(j - 1) == '/' {
            sep = j - 1;
            found = true;
        } else {
            j -= 1;
        }
    }
    proof {
        if found {
            crate::paths::lemma_last_sep_found(tmp_location@, sep as int);
        } else {
            crate::paths::lemma_last_sep_none(tmp_location@);
        }
    }
    let name_len: usize = if found {
        n - sep - 1
    } else {
        n
    };
    if name_len > MAX_FILENAME_LENGTH {
        Err(Error::FilenameTooLong)
    } else {
        Ok(())
    }
}

spec fn count_of<A>(s: Seq<A>, x: A) -> nat
    decreases s.len(),
{
    if s.len() == 0 {
        0
    } else {
        count_of(s.drop_last(), x) + if s.last() == x {
            1nat
        } else {
            0nat
        }
    }
}

proof fn lemma_count_multiset<A>(s: Seq<A>, x: A)
    ensures
        s.to_multiset().count(x) == count_of(s, x),
    decreases s.len(),
{
    broadcast use vstd::seq_lib::group_to_multiset_ensures;

    if s.len() == 0 {
        assert(s.to_multiset() =~= Multiset::<A>::empty());
    } else {
        lemma_count_multiset(s.drop_last(), x);
        assert(s.drop_last().push(s.last()) =~= s);
        assert(s.drop_last().push(s.last()).to_multiset() =~= s.drop_last().to_multiset().insert(
            s.last(),
        ));
    }
}

proof fn lemma_count_bound<A>(s: Seq<A>, x: A)
    ensures
        count_of(s, x) <= s.len(),
    decreases s.len(),
{
    if s.len() > 0 {
        lemma_count_bound(s.drop_last(), x);
    }
}

fn info_eq(a: &IncomingFileInfo, b: &IncomingFileInfo) -> (r: bool)
    ensures
        r == (a.iv() == b.iv()),
{
    if !str_eq(a.file_id.as_str(), b.file_id.as_str()) {
        return false;
    }
    if a.size != b.size {
        return false;
    }
    if a.subpath.len() != b.subpath.len() {
        proof {
            assert(a.subpath.deep_view().len() != b.subpath.deep_view().len());
        }
        return false;
    }
    let mut i: usize = 0;
    while i < a.subpath.len()
        invariant
            a.subpath@.len() == b.subpath@.len(),
            0 <= i <= a.subpath@.len(),
            forall|j: int| 0 <= j < i ==> a.subpath.deep_view()[j] == b.subpath.deep_view()[j],
        decreases a.subpath@.len() - i,
    {
        proof {
            assert(a.subpath.deep_view()[i as int] == a.subpath@[i as int]@);
            assert(b.subpath.deep_view()[i as int] == b.subpath@[i as int]@);
        }
        if !str_eq(a.subpath[i].as_str(), b.subpath[i].as_str()) {
            return false;
        }
        i += 1;
    }
    proof {
        assert(a.subpath.deep_view() =~= b.subpath.deep_view());
    }
    true
}

fn count_info(v: &Vec<IncomingFileInfo>, x: &IncomingFileInfo) -> (r: usize)
    ensures
        r == count_of(infos_iv(v@), x.iv()),
{
    let mut cnt: usize = 0;
    let mut i: usize = 0;
    while i < v.len()
        invariant
            0 <= i <= v@.len(),
            cnt == count_of(infos_iv(v@).take(i as int), x.iv()),
            cnt <= i,
        decreases v@.len() - i,
    {
        proof {
            assert(infos_iv(v@).take(i + 1).drop_last() =~= infos_iv(v@).take(i as int));
            assert(infos_iv(v@).take(i + 1).last() == v@[i as int].iv());
        }
        if info_eq(&v[i], x) {
            cnt += 1;
        }
        i += 1;
    }
    proof {
        assert(infos_iv(v@).take(v@.len() as int) =~= infos_iv(v@));
    }
    cnt
}

/// Whether two persisted file lists carry the same files, as multisets
/// of their mathematical values.
pub open spec fn same_files(a: Seq<IncomingFileInfo>, b: Seq<IncomingFileInfo>) -> bool {
    infos_iv(a).to_multiset() == infos_iv(b).to_multiset()
}

fn files_match(a: &Vec<IncomingFileInfo>, b: &Vec<IncomingFileInfo>) -> (r: bool)
    ensures
        r == same_files(a@, b@),
{
    broadcast use vstd::seq_lib::group_to_multiset_ensures;

    if a.len() != b.len() {
        proof {
            assert(infos_iv(a@).to_multiset().len() == infos_iv(a@).len());
            assert(infos_iv(b@).to_multiset().len() == infos_iv(b@).len());
        }
        return false;
    }
    let mut i: usize = 0;
    while i < a.len()
        invariant
            0 <= i <= a@.len(),
            forall|j: int| 0 <= j < i ==> count_of(infos_iv(a@), (#[trigger] a@[j]).iv())
                == count_of(infos_iv(b@), a@[j].iv()),
        decreases a@.len() - i,
    {
        let ca = count_info(a, &a[i]);
        let cb = count_info(b, &a[i]);
        if ca != cb {
            proof {
                lemma_count_multiset(infos_iv(a@), a@[i as int].iv());
                lemma_count_multiset(infos_iv(b@), a@[i as int].iv());
            }
            return false;
        }
        i += 1;
    }
    let mut i: usize = 0;
    while i < b.len()
        invariant
            0 <= i <= b@.len(),
            forall|j: int| 0 <= j < i ==> count_of(infos_iv(a@), (#[trigger] b@[j]).iv())
                == count_of(infos_iv(b@), b@[j].iv()),
        decreases b@.len() - i,
    {
        let ca = count_info(a, &b[i]);
        let cb = count_info(b, &b[i]);
        if ca != cb {
            proof {
                lemma_count_multiset(infos_iv(a@), b@[i as int].iv());
                lemma_count_multiset(infos_iv(b@), b@[i as int].iv());
            }
            return false;
        }
        i += 1;
    }
    proof {
        assert forall|x: (Seq<char>, Seq<Seq<char>>, u64)| infos_iv(a@).to_multiset().count(x)
            == infos_iv(b@).to_multiset().count(x) by {
            lemma_count_multiset(infos_iv(a@), x);
            lemma_count_multiset(infos_iv(b@), x);
            if infos_iv(a@).contains(x) {
                let j = choose|j: int| 0 <= j < infos_iv(a@).len() && infos_iv(a@)[j] == x;
                assert(infos_iv(a@)[j] == a@[j].iv());
                assert(count_of(infos_iv(a@), a@[j].iv()) == count_of(infos_iv(b@), a@[j].iv()));
            } else if infos_iv(b@).contains(x) {
                let j = choose|j: int| 0 <= j < infos_iv(b@).len() && infos_iv(b@)[j] == x;
                assert(infos_iv(b@)[j] == b@[j].iv());
                assert(count_of(infos_iv(a@), b@[j].iv()) == count_of(infos_iv(b@), b@[j].iv()));
            } else {
                assert(infos_iv(a@).to_multiset().count(x) == 0);
                assert(infos_iv(b@).to_multiset().count(x) == 0);
            }
        }
        assert(infos_iv(a@).to_multiset() =~= infos_iv(b@).to_multiset());
    }
    true
}

/// Validates a resumed transfer against the persisted metadata: the
/// peer must be the same and the file lists must carry the same files,
/// in any order. A mismatch is fatal for the session; nothing is
/// mutated either way.
pub fn ensure_resume_matches_existing_transfer(
    current_info: &IncomingTransferInfo,
    existing_info: &IncomingTransferInfo,
) -> (r: Result<(), Error>)
    ensures
        r is Ok <==> current_info.peer@ == existing_info.peer@ && same_files(
            current_info.files@,
            existing_info.files@,
        ),
        r matches Err(e) ==> e is BadTransferState,
{
    if !str_eq(current_info.peer.as_str(), existing_info.peer.as_str()) {
        return Err(Error::BadTransferState);
    }
    if !files_match(&current_info.files, &existing_info.files) {
        return Err(Error::BadTransferState);
    }
    Ok(())
}

/// Announces to the peer every file this host has rejected and the
/// peer has not acknowledged: one `Reject` request per such file that
/// the transfer actually carries. Returns the announced ids.
pub fn reject_transfer_files(
    store: &SyncStore,
    xfer: &IncomingTransfer,
    req_send: &tokio::sync::mpsc::UnboundedSender<ServerReq>,
) -> (r: Vec<String>)
    requires
        store.wf(),
    ensures
        r.deep_view().no_duplicates(),
        forall|f: Seq<char>| #[trigger]
            r.deep_view().contains(f) <==> store@.contains_key(xfer.id) && !store@[xfer.id].is_outgoing
                && wants_reject(store@[xfer.id].files@, f) && xfer.has_file(f),
{
    let ids = store.incoming_files_to_reject(xfer.id);
    let mut out: Vec<String> = Vec::new();
    let mut i: usize = 0;
    while i < ids.len()
        invariant
            store.wf(),
            0 <= i <= ids@.len(),
            ids.deep_view().no_duplicates(),
            forall|f: Seq<char>| #[trigger]
                ids.deep_view().contains(f) <==> store@.contains_key(xfer.id) && !store@[xfer.id].is_outgoing
                    && wants_reject(store@[xfer.id].files@, f),
            out.deep_view().no_duplicates(),
            forall|f: Seq<char>| #[trigger]
                out.deep_view().contains(f) <==> ids.deep_view().take(i as int).contains(f)
                    && xfer.has_file(f),
        decreases ids@.len() - i,
    {
        proof {
            assert(ids.deep_view()[i as int] == ids@[i as int]@);
        }
        let has = match xfer.file_by_id(ids[i].as_str()) {
            Some(f) => {
                proof {
                    let k = choose|k: int|
                        0 <= k < xfer.files@.len() && xfer.files@[k] == *f;
                    assert((#[trigger] xfer.files@[k]).id@ == ids@[i as int]@);
                }
                true
            },
            None => false,
        };
        let ghost pre = out;
        if has {
            let _ = send_msg(req_send, ServerReq::Reject { file: ids[i].clone() });
            proof {
                if out.deep_view().contains(ids.deep_view()[i as int]) {
                    assert(ids.deep_view().take(i as int).contains(ids.deep_view()[i as int]));
                    let m = choose|m: int|
                        0 <= m < i && (#[trigger] ids.deep_view().take(i as int)[m])
                            == ids.deep_view()[i as int];
                    assert(ids.deep_view()[m] == ids.deep_view()[i as int]);
                    assert(false);
                }
            }
            out.push(ids[i].clone());
            proof {
                crate::strtable::lemma_deep_view_push(pre, out, ids@[i as int]);
            }
        }
        proof {
            let dv = ids.deep_view();
            assert forall|f: Seq<char>| #[trigger]
                out.deep_view().contains(f) <==> dv.take(i + 1).contains(f) && xfer.has_file(
                    f,
                ) by {
                if out.deep_view().contains(f) {
                    if has && f == dv[i as int] {
                        assert(dv.take(i + 1)[i as int] == f);
                    } else {
                        if pre.deep_view().contains(f) {
                            let m = choose|m: int|
                                0 <= m < i && (#[trigger] dv.take(i as int)[m]) == f;
                            assert(dv.take(i + 1)[m] == f);
                        } else {
                            assert(f == dv[i as int]);
                            assert(dv.take(i + 1)[i as int] == f);
                        }
                    }
                }
                if dv.take(i + 1).contains(f) && xfer.has_file(f) {
                    let m = choose|m: int| 0 <= m < i + 1 && (#[trigger] dv.take(i + 1)[m]) == f;
                    if m < i {
                        assert(dv.take(i as int)[m] == f);
                        assert(pre.deep_view().contains(f));
                        if has {
                            let m2 = choose|m2: int|
                                0 <= m2 < pre.deep_view().len() && (#[trigger] pre.deep_view()[m2])
                                    == f;
                            assert(out.deep_view()[m2] == f);
                        }
                    } else {
                        assert(f == dv[i as int]);
                        assert(dv.contains(f));
                        assert(out.deep_view().last() == f);
                    }
                }
            }
        }
        i += 1;
    }
    proof {
        assert(ids.deep_view().take(ids@.len() as int) =~= ids.deep_view());
    }
    out
}

/// Schedules a download task for every file recorded as in flight that
/// the transfer actually carries, handing each task the committed base
/// directory. Returns the scheduled file ids.
pub fn resume_transfer_files(
    store: &SyncStore,
    xfer: &IncomingTransfer,
    req_send: &tokio::sync::mpsc::UnboundedSender<ServerReq>,
) -> (r: Vec<String>)
    requires
        store.wf(),
    ensures
        r.deep_view().no_duplicates(),
        forall|f: Seq<char>| #[trigger]
            r.deep_view().contains(f) <==> store.in_flight_alive(xfer.id, f) && xfer.has_file(f),
{
    let rows = store.incoming_files_in_flight(xfer.id);
    let mut out: Vec<String> = Vec::new();
    let mut i: usize = 0;
    while i < rows.len()
        invariant
            store.wf(),
            0 <= i <= rows@.len(),
            forall|j: int|
                0 <= j < rows@.len() ==> store.in_flight_alive(
                    xfer.id,
                    (#[trigger] rows@[j]).file_id@,
                ),
            forall|f: Seq<char>|
                store.in_flight_alive(xfer.id, f) ==> exists|j: int|
                    0 <= j < rows@.len() && (#[trigger] rows@[j]).file_id@ == f,
            forall|a: int, b: int|
                0 <= a < b < rows@.len() ==> rows@[a].file_id@ != rows@[b].file_id@,
            out.deep_view().no_duplicates(),
            forall|f: Seq<char>| #[trigger]
                out.deep_view().contains(f) <==> (exists|j: int|
                    0 <= j < i && (#[trigger] rows@[j]).file_id@ == f) && xfer.has_file(f),
        decreases rows@.len() - i,
    {
        let row = &rows[i];
        let ghost pre = out;
        match xfer.file_by_id(row.file_id.as_str()) {
            Some(file) => {
                proof {
                    let k = choose|k: int|
                        0 <= k < xfer.files@.len() && xfer.files@[k] == *file;
                    assert((#[trigger] xfer.files@[k]).id@ == rows@[i as int].file_id@);
                    if out.deep_view().contains(rows@[i as int].file_id@) {
                        let j = choose|j: int|
                            0 <= j < i && (#[trigger] rows@[j]).file_id@
                                == rows@[i as int].file_id@;
                        assert(false);
                    }
                }
                let task = FileXferTask::new(
                    file.duplicate(),
                    xfer.duplicate(),
                    row.base_dir.clone(),
                );
                let _ = send_msg(req_send, ServerReq::Download { task: Box::new(task) });
                out.push(row.file_id.clone());
                proof {
                    crate::strtable::lemma_deep_view_push(pre, out, rows@[i as int].file_id);
                }
            },
            None => {},
        }
        proof {
            assert forall|f: Seq<char>| #[trigger]
                out.deep_view().contains(f) <==> (exists|j: int|
                    0 <= j < i + 1 && (#[trigger] rows@[j]).file_id@ == f) && xfer.has_file(
                    f,
                ) by {
                if out.deep_view().contains(f) {
                    if pre.deep_view().contains(f) {
                        let j = choose|j: int| 0 <= j < i && (#[trigger] rows@[j]).file_id@ == f;
                        assert(0 <= j < i + 1 && rows@[j].file_id@ == f);
                    } else {
                        assert(f == rows@[i as int].file_id@);
                        assert(0 <= i < i + 1 && rows@[i as int].file_id@ == f);
                    }
                }
                if (exists|j: int| 0 <= j < i + 1 && (#[trigger] rows@[j]).file_id@ == f)
                    && xfer.has_file(f) {
                    let j = choose|j: int| 0 <= j < i + 1 && (#[trigger] rows@[j]).file_id@ == f;
                    if j < i {
                        assert(pre.deep_view().contains(f));
                        if out@.len() > pre@.len() {
                            let m2 = choose|m2: int|
                                0 <= m2 < pre.deep_view().len() && (#[trigger] pre.deep_view()[m2])
                                    == f;
                            assert(out.deep_view()[m2] == f);
                        }
                    } else {
                        assert(xfer.has_file(rows@[i as int].file_id@));
                        assert(out.deep_view().last() == f);
                    }
                }
            }
        }
        i += 1;
    }
    out
}

/// Whether a proposed transfer agrees with the persisted metadata: the
/// same peer and the same files, in any order.
pub open spec fn resume_matches(xfer: IncomingTransfer, info: IncomingTransferInfo) -> bool {
    &&& info.peer@ == xfer.peer@
    &&& recvs_iv(xfer.files@).to_multiset() == infos_iv(info.files@).to_multiset()
}

/// What `init_client_handler` decided: the transfer is new and awaits
/// the embedder's consent; it resumed, with the listed files announced
/// as rejected and scheduled for download; or this host had already
/// canceled it, so the channel is dropped and the peer sees the stream
/// end.
pub enum InitOutcome {
    NewTransfer,
    AlreadyCanceled,
    Resumed { rejected: Vec<String>, resumed: Vec<String> },
}

/// Admits a proposed transfer into the engine.
///
/// Without sync rows this is a new transfer: its rows are written, it
/// is registered with the session's channel, and the embedder is to be
/// told of the request. With sync rows it is a resume: the proposal
/// must match the persisted metadata, a still-new transfer becomes
/// active on both sides, pending rejects are announced and in-flight
/// files rescheduled — unless this host has already canceled, in which
/// case the channel is dropped unused.
pub fn init_client_handler(
    store: &mut SyncStore,
    manager: &mut TransferManager,
    xfer: IncomingTransfer,
    existing_info: Option<IncomingTransferInfo>,
    req_send: tokio::sync::mpsc::UnboundedSender<ServerReq>,
) -> (r: Result<InitOutcome, Error>)
    requires
        old(store).wf(),
        old(store)@.contains_key(xfer.id) && old(store)@[xfer.id].local_state
            != TransferState::Canceled ==> old(manager).incoming_map().contains_key(xfer.id),
    ensures
        final(store).wf(),
        final(manager).outgoing_map() == old(manager).outgoing_map(),
        // a transfer without sync rows is new
        !old(store)@.contains_key(xfer.id) ==> (match r {
            Ok(o) => o is NewTransfer && !old(manager).incoming_map().contains_key(xfer.id),
            Err(e) => e is BadTransferState && old(manager).incoming_map().contains_key(xfer.id)
                && final(store)@ == old(store)@ && final(manager).incoming_map() == old(manager).incoming_map(),
        }),
        !old(store)@.contains_key(xfer.id) && r is Ok ==> (final(store)@ =~= old(store)@.insert(
            xfer.id,
            final(store)@[xfer.id],
        )) && final(store)@[xfer.id].local_state == TransferState::New && final(store)@[xfer.id].remote_state == TransferState::New && !final(store)@[xfer.id].is_outgoing
            && (final(store)@[xfer.id].files@ =~= crate::sync::all_alive(recv_ids(xfer.files@))),
        !old(store)@.contains_key(xfer.id) && r is Ok ==> (final(manager).incoming_map()
            =~= old(manager).incoming_map().insert(
            xfer.id,
            final(manager).incoming_map()[xfer.id],
        )) && final(manager).incoming_map()[xfer.id].conn == Some(req_send) && final(manager).incoming_map()[xfer.id].xfer == xfer,
        // a resume without persisted metadata is refused
        old(store)@.contains_key(xfer.id) && existing_info is None ==> (r matches Err(e)
            && e is BadTransfer && final(store)@ == old(store)@ && final(manager).incoming_map() == old(manager).incoming_map()),
        // a resume that does not match the persisted metadata fails
        // without mutating anything
        old(store)@.contains_key(xfer.id) && (existing_info matches Some(info)
            && !resume_matches(xfer, info)) ==> (r matches Err(e) && e is BadTransferState
            && final(store)@ == old(store)@ && final(manager).incoming_map() == old(manager).incoming_map()),
        // a matching resume of a transfer this host canceled is
        // accepted, but nothing is scheduled and nothing changes
        old(store)@.contains_key(xfer.id) && old(store)@[xfer.id].local_state
            == TransferState::Canceled && (existing_info matches Some(info) && resume_matches(
            xfer,
            info,
        )) ==> (r matches Ok(o) && o is AlreadyCanceled && final(store)@ == old(store)@
            && final(manager).incoming_map() == old(manager).incoming_map()),
        // a matching resume of a live transfer
        old(store)@.contains_key(xfer.id) && old(store)@[xfer.id].local_state
            != TransferState::Canceled && (existing_info matches Some(info) && resume_matches(
            xfer,
            info,
        )) ==> (r matches Ok(o) && o matches InitOutcome::Resumed { rejected, resumed }
            && rejected.deep_view().no_duplicates() && resumed.deep_view().no_duplicates() && (
        forall|f: Seq<char>| #[trigger]
            rejected.deep_view().contains(f) <==> !old(store)@[xfer.id].is_outgoing
                && wants_reject(old(store)@[xfer.id].files@, f) && xfer.has_file(f)) && (
        forall|f: Seq<char>| #[trigger]
            resumed.deep_view().contains(f) <==> !old(store)@[xfer.id].is_outgoing && old(store)@[xfer.id].in_flight@.contains_key(f) && old(store)@[xfer.id].files@.contains_key(f)
                && old(store)@[xfer.id].files@[f].local_state == crate::sync::FileState::Alive
                && xfer.has_file(f))),
        // on such a resume a still-new transfer becomes active on both
        // sides in one step; otherwise the store keeps its states
        old(store)@.contains_key(xfer.id) && old(store)@[xfer.id].local_state
            != TransferState::Canceled && (existing_info matches Some(info) && resume_matches(
            xfer,
            info,
        )) ==> (if old(store)@[xfer.id].local_state == TransferState::New {
            final(store)@ =~= old(store)@.insert(
                xfer.id,
                (crate::sync::TransferRow {
                    local_state: TransferState::Active,
                    remote_state: TransferState::Active,
                    ..old(store)@[xfer.id]
                }),
            )
        } else {
            final(store)@ == old(store)@
        }),
        // and the session's channel is attached to the live entry
        old(store)@.contains_key(xfer.id) && old(store)@[xfer.id].local_state
            != TransferState::Canceled && (existing_info matches Some(info) && resume_matches(
            xfer,
            info,
        )) ==> (final(manager).incoming_map() =~= old(manager).incoming_map().insert(
            xfer.id,
            final(manager).incoming_map()[xfer.id],
        )) && final(manager).incoming_map()[xfer.id].conn == Some(req_send) && final(manager).incoming_map()[xfer.id].xfer == old(manager).incoming_map()[xfer.id].xfer,
{
    let tid = xfer.id;
    match store.transfer_state(tid) {
        Some(tr) => {
            let info = match existing_info {
                Some(i) => i,
                None => {
                    return Err(Error::BadTransfer);
                },
            };
            let current = xfer.storage_info();
            proof {
                broadcast use vstd::seq_lib::group_to_multiset_ensures;

            }
            match ensure_resume_matches_existing_transfer(&current, &info) {
                Ok(()) => {},
                Err(e) => {
                    return Err(e);
                },
            }
            if matches!(tr.local_state, TransferState::Canceled) {
                return Ok(InitOutcome::AlreadyCanceled);
            }
            if matches!(tr.local_state, TransferState::New) {
                let _ = store.activate_transfer(tid);
            }
            let rejected = reject_transfer_files(store, &xfer, &req_send);
            let resumed = resume_transfer_files(store, &xfer, &req_send);
            let _ = manager.set_incoming_conn(tid, req_send);
            Ok(InitOutcome::Resumed { rejected, resumed })
        },
        None => {
            match manager.insert_incoming(store, xfer, Some(req_send)) {
                Ok(()) => Ok(InitOutcome::NewTransfer),
                Err(e) => Err(e),
            }
        },
    }
}

/// The cleanup after a session drains gracefully: the transfer leaves
/// the registry and every sync row of it is purged.
pub fn finalize_graceful(manager: &mut TransferManager, store: &mut SyncStore, uuid: u128)
    requires
        old(store).wf(),
    ensures
        final(store).wf(),
        (final(store)@ =~= old(store)@.remove(uuid)),
        (final(manager).incoming_map() =~= old(manager).incoming_map().remove(uuid)),
        final(manager).outgoing_map() == old(manager).outgoing_map(),
{
    let _ = manager.cancel_incoming(uuid);
    let _ = store.transfer_clear(uuid);
}

impl FileXferTask {
    /// The absolute destination of the download: the base directory
    /// joined with the mapped relative path, per the transfer's
    /// directory-remap cache.
    pub fn prepare_abs_path(
        &self,
        manager: &mut TransferManager,
        probe_exists: &Vec<bool>,
    ) -> (r: Result<String, Error>)
        requires
            old(manager).incoming_map().contains_key(self.xfer.id) && crate::manager::needs_probe(
                old(manager).incoming_map()[self.xfer.id].dir_mappings@,
                self.base_dir@,
                self.file.subpath.deep_view(),
            ) ==> exists|j: int| 0 <= j < probe_exists@.len() && !probe_exists@[j],
        ensures
            final(manager).outgoing_map() == old(manager).outgoing_map(),
            !old(manager).incoming_map().contains_key(self.xfer.id) ==> (r matches Err(e)
                && e is Canceled),
            old(manager).incoming_map().contains_key(self.xfer.id) ==> (r is Ok <==> crate::paths::subpath_ok(
                self.file.subpath.deep_view(),
            )),
            old(manager).incoming_map().contains_key(self.xfer.id) ==> (r matches Ok(p) ==> (
            crate::manager::spec_compose(
                old(manager).incoming_map()[self.xfer.id].dir_mappings@,
                self.base_dir@,
                self.file.subpath.deep_view(),
                probe_exists@,
            ) matches Some(pr) && p@ == self.base_dir@ + seq!['/'] + crate::paths::join_spec(
                pr.1,
            ))),
    {
        let rel = match manager.apply_dir_mapping(
            self.xfer.id,
            self.base_dir.as_str(),
            &self.file.subpath,
            probe_exists,
        ) {
            Ok(rel) => rel,
            Err(e) => {
                return Err(e);
            },
        };
        let joined = crate::paths::join_components(&rel);
        Ok(crate::paths::join_two(self.base_dir.as_str(), joined.as_str()))
    }
}

} // verus!
