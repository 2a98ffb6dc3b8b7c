//! The dispatcher's window onto the file system: a snapshot of file images
//! read before a command runs, and the writes to perform after it.
use vstd::prelude::*;
use vstd::string::StringExecFns;
use crate::codec::spec_file;

verus! {

/// One store's file image as read from disk; `None` when the file is
/// absent.
pub struct DiskEntry {
    pub name: String,
    pub bytes: Option<Vec<u8>>,
}

/// The model of a [`DiskEntry`].
pub ghost struct DiskEntryModel {
    pub name: Seq<char>,
    pub bytes: Option<Seq<u8>>,
}

impl View for DiskEntry {
    type V = DiskEntryModel;

    open spec fn view(&self) -> DiskEntryModel {
        DiskEntryModel {
            name: self.name@,
            bytes: match self.bytes {
                Some(b) => Some(b@),
                None => None,
            },
        }
    }
}

/// The file images a command may consult, keyed by store name.
pub struct DiskSnapshot {
    pub entries: Vec<DiskEntry>,
}

impl View for DiskSnapshot {
    type V = Seq<DiskEntryModel>;

    open spec fn view(&self) -> Seq<DiskEntryModel> {
        self.entries@.map_values(|e: DiskEntry| e@)
    }
}

/// The first entry of the given name, or `-1`.
pub open spec fn snap_idx(es: Seq<DiskEntryModel>, name: Seq<char>) -> int
    decreases es.len(),
{
    if es.len() == 0 {
        -1
    } else if es[0].name == name {
        0
    } else {
        let r = snap_idx(es.drop_first(), name);
        if r == -1 {
            -1
        } else {
            r + 1
        }
    }
}

/// The file image the snapshot reports for a name; a name without an entry
/// reports an absent file.
pub open spec fn snap_file(es: Seq<DiskEntryModel>, name: Seq<char>) -> Option<Seq<u8>> {
    if snap_idx(es, name) >= 0 {
        es[snap_idx(es, name)].bytes
    } else {
        None
    }
}

proof fn lemma_snap_idx_at(es: Seq<DiskEntryModel>, name: Seq<char>, i: int)
    requires
        0 <= i < es.len(),
        es[i].name == name,
        forall|k: int| 0 <= k < i ==> (#[trigger] es[k]).name != name,
    ensures
        snap_idx(es, name) == i,
    decreases es.len(),
{
    if i > 0 {
        lemma_snap_idx_at(es.drop_first(), name, i - 1);
    }
}

proof fn lemma_snap_idx_none(es: Seq<DiskEntryModel>, name: Seq<char>)
    requires
        forall|k: int| 0 <= k < es.len() ==> (#[trigger] es[k]).name != name,
    ensures
        snap_idx(es, name) == -1,
    decreases es.len(),
{
    if es.len() > 0 {
        lemma_snap_idx_none(es.drop_first(), name);
    }
}

impl DiskSnapshot {
    /// A snapshot without entries: every file reads as absent.
    pub fn empty_snapshot() -> (r: DiskSnapshot)
        ensures
            r@.len() == 0,
    {
        let r = DiskSnapshot { entries: Vec::new() };
        proof {
            assert(r@ =~= Seq::<DiskEntryModel>::empty());
        }
        r
    }

    /// The file image recorded for a name.
    pub fn lookup(&self, name: &String) -> (r: Option<Vec<u8>>)
        ensures
            spec_file(&r) == snap_file(self@, name@),
    {
        let ghost es = self@;
        let mut i: usize = 0;
        while i < self.entries.len()
            invariant
                i <= self.entries@.len(),
                es == self@,
                es.len() == self.entries@.len(),
                forall|k: int| 0 <= k < i ==> (#[trigger] es[k]).name != name@,
            decreases self.entries@.len() - i,
        {
            proof {
                assert(es[i as int] == self.entries@[i as int]@);
            }
            if self.entries[i].name == *name {
                proof {
                    lemma_snap_idx_at(es, name@, i as int);
                }
                match &self.entries[i].bytes {
                    Some(b) => {
                        let c = clone_bytes(b);
                        return Some(c);
                    },
                    None => {
                        return None;
                    },
                }
            }
            i += 1;
        }
        proof {
            lemma_snap_idx_none(es, name@);
        }
        None
    }
}

/// A copy of a byte buffer.
pub fn clone_bytes(b: &Vec<u8>) -> (r: Vec<u8>)
    ensures
        r@ == b@,
{
    let mut r: Vec<u8> = Vec::new();
    let mut i: usize = 0;
    while i < b.len()
        invariant
            i <= b@.len(),
            r@ == b@.subrange(0, i as int),
        decreases b@.len() - i,
    {
        proof {
            assert(b@.subrange(0, i + 1) =~= b@.subrange(0, i as int).push(b@[i as int]));
        }
        r.push(b[i]);
        i += 1;
    }
    proof {
        assert(b@.subrange(0, b@.len() as int) =~= b@);
    }
    r
}

/// One file write the embedding program must perform.
pub struct FileWrite {
    pub path: String,
    pub bytes: Vec<u8>,
}

/// The model of a [`FileWrite`].
pub ghost struct FileWriteModel {
    pub path: Seq<char>,
    pub bytes: Seq<u8>,
}

impl View for FileWrite {
    type V = FileWriteModel;

    open spec fn view(&self) -> FileWriteModel {
        FileWriteModel { path: self.path@, bytes: self.bytes@ }
    }
}

/// The models of a row of writes.
pub open spec fn writes_of(ws: Seq<FileWrite>) -> Seq<FileWriteModel> {
    ws.map_values(|w: FileWrite| w@)
}

/// Where a store's file lives: `{folder}/{name}.dtf`.
pub open spec fn spec_path(folder: Seq<char>, name: Seq<char>) -> Seq<char> {
    folder + "/"@ + name + ".dtf"@
}

/// Builds a store's file path.
pub fn file_path(folder: &String, name: &String) -> (r: String)
    ensures
        r@ == spec_path(folder@, name@),
{
    let mut s = folder.clone();
    s.append("/");
    s.append(name.as_str());
    s.append(".dtf");
    proof {
        assert(s@ =~= spec_path(folder@, name@));
    }
    s
}

} // verus!
