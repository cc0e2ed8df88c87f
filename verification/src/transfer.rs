//! Transfer metadata as the engine sees it: the files a transfer
//! carries, identified by their stable file ids, and the persisted
//! transfer info a resume is validated against.

use vstd::prelude::*;

use crate::paths::str_eq;

verus! {

/// One file the receiver is to take: its stable id, its sub-path within
/// the transfer, and its declared byte size.
pub struct FileToRecv {
    pub id: String,
    pub subpath: Vec<String>,
    pub size: u64,
}

impl FileToRecv {
    /// Builds the record of one file to receive.
    pub fn new(id: String, subpath: Vec<String>, size: u64) -> (r: Self)
        ensures
            r.id == id,
            r.subpath == subpath,
            r.size == size,
    {
        FileToRecv { id, subpath, size }
    }
}

/// An incoming transfer: its UUID (as the 128-bit value), the peer's
/// address in textual form, and its files.
pub struct IncomingTransfer {
    pub id: u128,
    pub peer: String,
    pub files: Vec<FileToRecv>,
}

impl IncomingTransfer {
    /// Whether the transfer carries a file under the id.
    pub open spec fn has_file(self, file_id: Seq<char>) -> bool {
        exists|i: int| 0 <= i < self.files@.len() && (#[trigger] self.files@[i]).id@ == file_id
    }

    /// Builds a transfer from its parts.
    pub fn new_with_uuid(peer: String, files: Vec<FileToRecv>, uuid: u128) -> (r: Self)
        ensures
            r.id == uuid,
            r.peer == peer,
            r.files == files,
    {
        IncomingTransfer { id: uuid, peer, files }
    }

    /// The file under the given id, if the transfer carries one.
    pub fn file_by_id(&self, file_id: &str) -> (r: Option<&FileToRecv>)
        ensures
            match r {
                Some(f) => f.id@ == file_id@ && self.files@.contains(*f),
                None => !self.has_file(file_id@),
            },
    {
        let mut i: usize = 0;
        while i < self.files.len()
            invariant
                0 <= i <= self.files@.len(),
                forall|j: int| 0 <= j < i ==> (#[trigger] self.files@[j]).id@ != file_id@,
            decreases self.files@.len() - i,
        {
            if str_eq(self.files[i].id.as_str(), file_id) {
                return Some(&self.files[i]);
            }
            i += 1;
        }
        None
    }

    /// The ids of all files, in order.
    pub fn file_ids(&self) -> (r: Vec<String>)
        ensures
            r.deep_view() == recv_ids(self.files@),
    {
        let mut out: Vec<String> = Vec::new();
        let mut i: usize = 0;
        while i < self.files.len()
            invariant
                0 <= i <= self.files@.len(),
                out.deep_view() == recv_ids(self.files@).take(i as int),
            decreases self.files@.len() - i,
        {
            let ghost pre = out;
            out.push(self.files[i].id.clone());
            proof {
                crate::strtable::lemma_deep_view_push(pre, out, self.files@[i as int].id);
                assert(out.deep_view() =~= recv_ids(self.files@).take(i + 1));
            }
            i += 1;
        }
        proof {
            let m = recv_ids(self.files@);
            assert(m.take(m.len() as int) =~= m);
        }
        out
    }

    /// The persisted form of this transfer's metadata.
    pub fn storage_info(&self) -> (r: IncomingTransferInfo)
        ensures
            r.peer@ == self.peer@,
            infos_iv(r.files@) == recvs_iv(self.files@),
    {
        let mut files: Vec<IncomingFileInfo> = Vec::new();
        let mut i: usize = 0;
        while i < self.files.len()
            invariant
                0 <= i <= self.files@.len(),
                files@.len() == i,
                infos_iv(files@) =~= recvs_iv(self.files@).take(i as int),
            decreases self.files@.len() - i,
        {
            let f = &self.files[i];
            let mut sp: Vec<String> = Vec::new();
            let mut j: usize = 0;
            while j < f.subpath.len()
                invariant
                    0 <= j <= f.subpath@.len(),
                    sp.deep_view() =~= f.subpath.deep_view().take(j as int),
                decreases f.subpath@.len() - j,
            {
                let ghost pre = sp;
                sp.push(f.subpath[j].clone());
                proof {
                    crate::strtable::lemma_deep_view_push(pre, sp, f.subpath@[j as int]);
                    assert(f.subpath.deep_view()[j as int] == f.subpath@[j as int]@);
                    assert(sp.deep_view() =~= f.subpath.deep_view().take(j + 1));
                }
                j += 1;
            }
            proof {
                assert(f.subpath.deep_view().take(f.subpath@.len() as int) =~= f.subpath.deep_view());
            }
            let info = IncomingFileInfo { file_id: f.id.clone(), subpath: sp, size: f.size };
            proof {
                assert(info.iv() == self.files@[i as int].iv());
            }
            let ghost pre = files@;
            files.push(info);
            proof {
                let lhs = infos_iv(files@);
                let rhs = recvs_iv(self.files@).take(i + 1);
                assert forall|m: int| 0 <= m < lhs.len() implies lhs[m] == rhs[m] by {
                    if m < i {
                        assert(files@[m] == pre[m]);
                        assert(infos_iv(pre)[m] == pre[m].iv());
                        assert(infos_iv(pre)[m] == recvs_iv(self.files@).take(i as int)[m]);
                    }
                }
                assert(lhs =~= rhs);
            }
            i += 1;
        }
        proof {
            let m = recvs_iv(self.files@);
            assert(m.take(m.len() as int) =~= m);
        }
        IncomingTransferInfo { peer: self.peer.clone(), files }
    }
}

impl FileToRecv {
    /// An owned copy of the record.
    pub fn duplicate(&self) -> (r: FileToRecv)
        ensures
            r.id@ == self.id@,
            r.subpath.deep_view() == self.subpath.deep_view(),
            r.size == self.size,
            r.iv() == self.iv(),
    {
        let mut sp: Vec<String> = Vec::new();
        let mut j: usize = 0;
        while j < self.subpath.len()
            invariant
                0 <= j <= self.subpath@.len(),
                sp.deep_view() =~= self.subpath.deep_view().take(j as int),
            decreases self.subpath@.len() - j,
        {
            let ghost pre = sp;
            sp.push(self.subpath[j].clone());
            proof {
                crate::strtable::lemma_deep_view_push(pre, sp, self.subpath@[j as int]);
                assert(self.subpath.deep_view()[j as int] == self.subpath@[j as int]@);
                assert(sp.deep_view() =~= self.subpath.deep_view().take(j + 1));
            }
            j += 1;
        }
        proof {
            assert(self.subpath.deep_view().take(self.subpath@.len() as int)
                =~= self.subpath.deep_view());
        }
        FileToRecv { id: self.id.clone(), subpath: sp, size: self.size }
    }
}

impl IncomingTransfer {
    /// An owned copy of the transfer metadata.
    pub fn duplicate(&self) -> (r: IncomingTransfer)
        ensures
            r.id == self.id,
            r.peer@ == self.peer@,
            r.files@.len() == self.files@.len(),
            forall|i: int| 0 <= i < self.files@.len() ==> (#[trigger] r.files@[i]).iv()
                == self.files@[i].iv(),
    {
        let mut files: Vec<FileToRecv> = Vec::new();
        let mut i: usize = 0;
        while i < self.files.len()
            invariant
                0 <= i <= self.files@.len(),
                files@.len() == i,
                forall|j: int| 0 <= j < i ==> (#[trigger] files@[j]).iv() == self.files@[j].iv(),
            decreases self.files@.len() - i,
        {
            files.push(self.files[i].duplicate());
            i += 1;
        }
        IncomingTransfer { id: self.id, peer: self.peer.clone(), files }
    }
}

/// An outgoing transfer as far as the receiver engine needs to know it:
/// its UUID, the peer, and the ids of its files.
pub struct OutgoingTransfer {
    pub id: u128,
    pub peer: String,
    pub file_ids: Vec<String>,
}

/// The ids of a sequence of files to receive, in order.
pub open spec fn recv_ids(s: Seq<FileToRecv>) -> Seq<Seq<char>> {
    s.map_values(|f: FileToRecv| f.id@)
}

/// The mathematical values of a sequence of persisted file records.
pub open spec fn infos_iv(s: Seq<IncomingFileInfo>) -> Seq<(Seq<char>, Seq<Seq<char>>, u64)> {
    s.map_values(|f: IncomingFileInfo| f.iv())
}

/// The mathematical values of a sequence of files to receive.
pub open spec fn recvs_iv(s: Seq<FileToRecv>) -> Seq<(Seq<char>, Seq<Seq<char>>, u64)> {
    s.map_values(|f: FileToRecv| f.iv())
}

/// The persisted metadata of one incoming file.
pub struct IncomingFileInfo {
    pub file_id: String,
    pub subpath: Vec<String>,
    pub size: u64,
}

impl IncomingFileInfo {
    /// The mathematical value of the record.
    pub open spec fn iv(self) -> (Seq<char>, Seq<Seq<char>>, u64) {
        (self.file_id@, self.subpath.deep_view(), self.size)
    }
}

impl FileToRecv {
    /// The mathematical value of the record, in the same shape as the
    /// persisted form.
    pub open spec fn iv(self) -> (Seq<char>, Seq<Seq<char>>, u64) {
        (self.id@, self.subpath.deep_view(), self.size)
    }
}

/// The persisted metadata of an incoming transfer: the peer and the
/// file list.
pub struct IncomingTransferInfo {
    pub peer: String,
    pub files: Vec<IncomingFileInfo>,
}

} // verus!
