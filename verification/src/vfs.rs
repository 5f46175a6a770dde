//! The in-memory file system: a tree of directories, files and devices.
//!
//! Nodes live in an arena and are named by their position in it; node 0 is
//! the root directory. A directory keeps its entries sorted by name, as the
//! ordered map of a directory listing does.

use vstd::prelude::*;
use vstd::string::StrSliceExecFns;
use crate::names::{lex_lt, lemma_lex_irreflexive, lemma_lex_trichotomy, lemma_lex_transitive, str_eq, str_lt};
use vstd::slice::SliceAdditionalExecFns;
use vstd::array::ArrayAdditionalExecFns;
use vstd::string::StringSliceAdditionalSpecFns;
use vstd::utf8::encode_utf8;
use crate::abi::{DirChild, Stat, StatMode, DIRENT_DEVICE, DIRENT_DIR, DIRENT_FILE, PATH_NAME_MAX};
use crate::device::{device_read, device_read_outcome, device_write, device_write_outcome, Devices};
use crate::path::{lemma_components_are_names, nonempty_components, path_components, views};
use crate::vga::no_home;

verus! {

/// The identity number a node gets when it is made.
#[derive(Clone, Copy, Debug)]
pub struct InodeIdx(pub u64);

/// The character devices the file system exposes.
#[derive(Clone, Copy, Debug, PartialEq, Eq)]
pub enum DeviceKind {
    Stdout,
    Stderr,
    Stdin,
}

/// The bytes of a regular file: a read-only part of the boot archive, or a
/// file made at run time.
pub enum FileData {
    Initrd(Vec<u8>),
    Memory(Vec<u8>),
}

/// One name in a directory and the node it names.
pub struct DirEntry {
    pub name: String,
    pub inode: usize,
}

pub enum InodeKind {
    Directory { entries: Vec<DirEntry> },
    File { data: FileData },
    Device { device: DeviceKind },
}

pub struct Inode {
    pub idx: InodeIdx,
    pub kind: InodeKind,
}

/// Why a file system operation failed; `path` is the path the caller gave.
#[derive(Debug)]
pub enum FileError {
    DirPathNotFound { dir_not_found: String, path: String },
    DirExpected { file_should_be_dir: Option<String>, path: String },
    FileExpected { path: String },
    FileNotFound { path: String },
    FileAlreadyExists { path: String },
    InvalidPath { path: String },
    FdNotFound,
    NotReadableFile,
    NotWritableFile,
    NoDataYet,
}

/// How a walk down the tree can stop short.
pub enum WalkError {
    /// A component names nothing.
    Missing,
    /// A component is asked of a node that is not a directory.
    NotDir(Seq<char>),
}

pub open spec fn entry_is_dir(k: InodeKind) -> bool {
    k is Directory
}

/// The names of `es`, strictly increasing.
pub open spec fn sorted_entries(es: Seq<DirEntry>) -> bool {
    forall|i: int, j: int| 0 <= i < j < es.len() ==> lex_lt(#[trigger] es[i].name@, #[trigger] es[j].name@)
}

/// The entries of a node, empty for anything but a directory.
pub open spec fn entries_of(k: InodeKind) -> Seq<DirEntry> {
    match k {
        InodeKind::Directory { entries } => entries@,
        _ => Seq::empty(),
    }
}

pub open spec fn names_at(es: Seq<DirEntry>, name: Seq<char>, i: int) -> bool {
    0 <= i < es.len() && es[i].name@ == name
}

/// The node that `name` names among `es`, if any.
pub open spec fn lookup_entry(es: Seq<DirEntry>, name: Seq<char>) -> Option<int> {
    if exists|i: int| #[trigger] names_at(es, name, i) {
        Some(es[choose|i: int| #[trigger] names_at(es, name, i)].inode as int)
    } else {
        None
    }
}

pub proof fn lemma_sorted_names_unique(es: Seq<DirEntry>, i: int, j: int)
    requires
        sorted_entries(es),
        0 <= i < es.len(),
        0 <= j < es.len(),
        es[i].name@ == es[j].name@,
    ensures
        i == j,
{
    lemma_lex_irreflexive(es[i].name@);
}

pub proof fn lemma_lookup_at(es: Seq<DirEntry>, name: Seq<char>, i: int)
    requires
        sorted_entries(es),
        0 <= i < es.len(),
        es[i].name@ == name,
    ensures
        lookup_entry(es, name) == Some(es[i].inode as int),
{
    assert(names_at(es, name, i));
    let j = choose|j: int| #[trigger] names_at(es, name, j);
    lemma_sorted_names_unique(es, i, j);
}

/// The file system: an arena of nodes, the root at position 0.
pub struct Vfs {
    nodes: Vec<Inode>,
    next_inode_id: u64,
}

impl Vfs {
    pub closed spec fn nodes(&self) -> Seq<Inode> {
        self.nodes@
    }

    /// The identity number the next node will get.
    pub closed spec fn next_id(&self) -> u64 {
        self.next_inode_id
    }

    pub open spec fn is_dir(&self, n: int) -> bool {
        0 <= n < self.nodes().len() && self.nodes()[n].kind is Directory
    }

    pub open spec fn entries(&self, n: int) -> Seq<DirEntry> {
        entries_of(self.nodes()[n].kind)
    }

    /// The node named `name` in directory `n`.
    pub open spec fn child(&self, n: int, name: Seq<char>) -> Option<int> {
        lookup_entry(self.entries(n), name)
    }

    pub open spec fn wf(&self) -> bool {
        &&& self.nodes().len() > 0
        &&& self.is_dir(0)
        &&& forall|n: int| 0 <= n < self.nodes().len() ==> sorted_entries(#[trigger] self.entries(n))
        &&& forall|n: int, i: int|
            0 <= n < self.nodes().len() && 0 <= i < self.entries(n).len() ==> (#[trigger] self.entries(n)[i]).inode
                < self.nodes().len()
    }

    /// Follows the components `comps` down from node `start`.
    pub open spec fn walk(&self, start: int, comps: Seq<Seq<char>>) -> Result<int, WalkError>
        decreases comps.len(),
    {
        if comps.len() == 0 {
            Ok(start)
        } else {
            match self.walk(start, comps.drop_last()) {
                Err(e) => Err(e),
                Ok(cur) => if self.is_dir(cur) {
                    match self.child(cur, comps.last()) {
                        Some(n) => Ok(n),
                        None => Err(WalkError::Missing),
                    }
                } else {
                    Err(WalkError::NotDir(comps.last()))
                },
            }
        }
    }

    /// The node that `path` names, from the root.
    pub open spec fn resolve_path(&self, path: Seq<char>) -> Result<int, WalkError> {
        self.walk(0, nonempty_components(path))
    }
}

/// Looks `name` up among sorted entries: its position, or where it would go.
fn search_entries(es: &Vec<DirEntry>, name: &str) -> (r: Result<usize, usize>)
    requires
        sorted_entries(es@),
    ensures
        match r {
            Ok(i) => i < es@.len() && es@[i as int].name@ == name@,
            Err(p) => {
                &&& p <= es@.len()
                &&& forall|j: int| 0 <= j < p ==> lex_lt(#[trigger] es@[j].name@, name@)
                &&& forall|j: int| p <= j < es@.len() ==> lex_lt(name@, #[trigger] es@[j].name@)
            },
        },
{
    let mut i: usize = 0;
    while i < es.len()
        invariant
            sorted_entries(es@),
            i <= es@.len(),
            forall|j: int| 0 <= j < i ==> lex_lt(#[trigger] es@[j].name@, name@),
        decreases es@.len() - i,
    {
        let ename = es[i].name.as_str();
        if str_eq(ename, name) {
            return Ok(i);
        }
        if str_lt(name, ename) {
            proof {
                assert forall|j: int| i <= j < es@.len() implies lex_lt(name@, #[trigger] es@[j].name@) by {
                    if j > i {
                        lemma_lex_transitive(name@, es@[i as int].name@, es@[j].name@);
                    }
                }
            }
            return Err(i);
        }
        proof {
            lemma_lex_trichotomy(es@[i as int].name@, name@);
        }
        i = i + 1;
    }
    Err(i)
}

proof fn lemma_lookup_missing(es: Seq<DirEntry>, name: Seq<char>, p: int)
    requires
        0 <= p <= es.len(),
        forall|j: int| 0 <= j < p ==> lex_lt(#[trigger] es[j].name@, name),
        forall|j: int| p <= j < es.len() ==> lex_lt(name, #[trigger] es[j].name@),
    ensures
        lookup_entry(es, name) is None,
{
    lemma_lex_irreflexive(name);
    assert(!exists|i: int| #[trigger] names_at(es, name, i));
}

impl Vfs {
    /// A file system with an empty root directory.
    pub fn new() -> (r: Vfs)
        ensures
            r.wf(),
            r.nodes().len() == 1,
            r.entries(0) == Seq::<DirEntry>::empty(),
            r.nodes()[0].idx.0 == 0,
            r.next_id() == 1,
    {
        let mut nodes: Vec<Inode> = Vec::new();
        nodes.push(Inode { idx: InodeIdx(0), kind: InodeKind::Directory { entries: Vec::new() } });
        let r = Vfs { nodes, next_inode_id: 1 };
        proof {
            assert(r.entries(0) =~= Seq::<DirEntry>::empty());
        }
        r
    }

    pub fn node_count(&self) -> (r: usize)
        ensures
            r == self.nodes().len(),
    {
        self.nodes.len()
    }

    /// The node in directory `dir` named `name`.
    fn child_of(&self, dir: usize, name: &str) -> (r: Option<usize>)
        requires
            self.wf(),
            self.is_dir(dir as int),
        ensures
            match r {
                Some(n) => self.child(dir as int, name@) == Some(n as int) && n < self.nodes().len(),
                None => self.child(dir as int, name@) is None,
            },
    {
        match &self.nodes[dir].kind {
            InodeKind::Directory { entries } => {
                proof {
                    assert(entries@ == self.entries(dir as int));
                    assert(sorted_entries(self.entries(dir as int)));
                }
                match search_entries(entries, name) {
                    Ok(i) => {
                        proof {
                            lemma_lookup_at(entries@, name@, i as int);
                            assert(self.entries(dir as int)[i as int] == entries@[i as int]);
                        }
                        Some(entries[i].inode)
                    },
                    Err(p) => {
                        proof {
                            lemma_lookup_missing(entries@, name@, p as int);
                        }
                        None
                    },
                }
            },
            _ => None,
        }
    }

    pub fn is_dir_node(&self, n: usize) -> (r: bool)
        requires
            n < self.nodes().len(),
        ensures
            r == self.is_dir(n as int),
    {
        match &self.nodes[n].kind {
            InodeKind::Directory { .. } => true,
            _ => false,
        }
    }

    /// The node that `path` names below `start`.
    pub fn find_inode_from(&self, start: usize, path: &str) -> (r: Result<usize, FileError>)
        requires
            self.wf(),
            start < self.nodes().len(),
        ensures
            match self.walk(start as int, nonempty_components(path@)) {
                Ok(n) => r == Ok::<usize, FileError>(n as usize),
                Err(WalkError::Missing) => r matches Err(FileError::FileNotFound { path: p }) && p@ == path@,
                Err(WalkError::NotDir(c)) => r matches Err(
                    FileError::DirExpected { file_should_be_dir: Some(c2), path: p },
                ) && c2@ == c && p@ == path@,
            },
    {
        let comps = path_components(path);
        let ghost cs = views(comps@);
        let mut current = start;
        let mut i: usize = 0;
        proof {
            assert(cs.subrange(0, 0) =~= Seq::<Seq<char>>::empty());
        }
        while i < comps.len()
            invariant
                self.wf(),
                i <= comps@.len(),
                cs == views(comps@),
                cs == nonempty_components(path@),
                current < self.nodes().len(),
                self.walk(start as int, cs.subrange(0, i as int)) == Ok::<int, WalkError>(current as int),
            decreases comps@.len() - i,
        {
            let c = comps[i];
            proof {
                assert(cs.subrange(0, i + 1).drop_last() =~= cs.subrange(0, i as int));
                assert(cs.subrange(0, i + 1).last() == c@);
            }
            if !self.is_dir_node(current) {
                proof {
                    lemma_walk_stuck(self, start as int, cs, i as int + 1);
                    assert(cs.subrange(0, cs.len() as int) =~= cs);
                }
                return Err(FileError::DirExpected { file_should_be_dir: Some(c.to_owned()), path: path.to_owned() });
            }
            match self.child_of(current, c) {
                Some(n) => {
                    current = n;
                },
                None => {
                    proof {
                        lemma_walk_stuck(self, start as int, cs, i as int + 1);
                        assert(cs.subrange(0, cs.len() as int) =~= cs);
                    }
                    return Err(FileError::FileNotFound { path: path.to_owned() });
                },
            }
            i = i + 1;
        }
        proof {
            assert(cs.subrange(0, cs.len() as int) =~= cs);
        }
        Ok(current)
    }

    /// The node that `path` names from the root.
    pub fn get_inode(&self, path: &str) -> (r: Result<usize, FileError>)
        requires
            self.wf(),
        ensures
            match self.resolve_path(path@) {
                Ok(n) => r == Ok::<usize, FileError>(n as usize),
                Err(WalkError::Missing) => r matches Err(FileError::FileNotFound { path: p }) && p@ == path@,
                Err(WalkError::NotDir(c)) => r matches Err(
                    FileError::DirExpected { file_should_be_dir: Some(c2), path: p },
                ) && c2@ == c && p@ == path@,
            },
    {
        self.find_inode_from(0, path)
    }
}

/// Once a walk has failed, walking further fails the same way.
proof fn lemma_walk_stuck(fs: &Vfs, start: int, cs: Seq<Seq<char>>, k: int)
    requires
        0 <= k <= cs.len(),
        fs.walk(start, cs.subrange(0, k)) is Err,
    ensures
        fs.walk(start, cs.subrange(0, cs.len() as int)) == fs.walk(start, cs.subrange(0, k)),
    decreases cs.len() - k,
{
    if k < cs.len() {
        assert(cs.subrange(0, k + 1).drop_last() =~= cs.subrange(0, k));
        lemma_walk_stuck(fs, start, cs, k + 1);
    }
}

/// Whether `s` holds a `/`.
fn has_slash(s: &str) -> (r: bool)
    ensures
        r == s@.contains('/'),
{
    let n = s.unicode_len();
    let mut i: usize = 0;
    while i < n
        invariant
            n == s@.len(),
            i <= n,
            forall|j: int| 0 <= j < i ==> s@[j] != '/',
        decreases n - i,
    {
        if s.get_char(i) == '/' {
            proof {
                assert(s@[i as int] == '/');
            }
            return true;
        }
        i = i + 1;
    }
    false
}

/// `new` is `old` with an entry named `name` for node `node` added to directory `d`.
pub open spec fn inserted(old: &Vfs, new: &Vfs, d: int, name: Seq<char>, node: int) -> bool {
    &&& new.nodes().len() == old.nodes().len()
    &&& new.next_id() == old.next_id()
    &&& forall|n: int| 0 <= n < old.nodes().len() && n != d ==> new.nodes()[n] == old.nodes()[n]
    &&& new.nodes()[d].idx == old.nodes()[d].idx
    &&& new.is_dir(d)
    &&& exists|p: int|
        0 <= p <= old.entries(d).len() && new.entries(d).remove(p) == old.entries(d) && (
        #[trigger] new.entries(d)[p]).name@ == name && new.entries(d)[p].inode == node
}

impl Vfs {
    /// `self` grew out of `old`: no node lost, no kind changed, no name
    /// re-pointed.
    pub open spec fn extends(&self, old: &Vfs) -> bool {
        &&& old.nodes().len() <= self.nodes().len()
        &&& forall|n: int| 0 <= n < old.nodes().len() ==> #[trigger] self.is_dir(n) == old.is_dir(n)
        &&& forall|n: int| 0 <= n < old.nodes().len() && !old.is_dir(n) ==> #[trigger] self.nodes()[n] == old.nodes()[n]
        &&& forall|n: int, name: Seq<char>|
            0 <= n < old.nodes().len() && (#[trigger] old.child(n, name)) is Some ==> self.child(n, name)
                == old.child(n, name)
    }

    /// Adds a node of kind `kind`, attached nowhere yet.
    fn push_node(&mut self, kind: InodeKind) -> (r: usize)
        requires
            old(self).wf(),
            entries_of(kind).len() == 0,
        ensures
            final(self).wf(),
            r == old(self).nodes().len(),
            final(self).nodes() == old(self).nodes().push(Inode { idx: InodeIdx(old(self).next_id()), kind }),
            final(self).next_id() == old(self).next_id().wrapping_add(1),
            final(self).extends(old(self)),
    {
        let r = self.nodes.len();
        let idx = InodeIdx(self.next_inode_id);
        self.next_inode_id = self.next_inode_id.wrapping_add(1);
        self.nodes.push(Inode { idx, kind });
        proof {
            let o = old(self);
            assert forall|n: int| 0 <= n < self.nodes().len() implies sorted_entries(#[trigger] self.entries(n)) by {
                if n < o.nodes().len() {
                    assert(self.entries(n) == o.entries(n));
                }
            }
            assert forall|n: int, i: int|
                0 <= n < self.nodes().len() && 0 <= i < self.entries(n).len() implies (#[trigger] self.entries(
                n,
            )[i]).inode < self.nodes().len() by {
                if n < o.nodes().len() {
                    assert(self.entries(n) == o.entries(n));
                }
            }
            assert forall|n: int, name: Seq<char>|
                0 <= n < o.nodes().len() && (#[trigger] o.child(n, name)) is Some implies self.child(n, name)
                == o.child(n, name) by {
                assert(self.entries(n) == o.entries(n));
            }
            assert forall|n: int| 0 <= n < o.nodes().len() implies #[trigger] self.is_dir(n) == o.is_dir(n) by {
                assert(self.nodes()[n] == o.nodes()[n]);
            }
        }
        r
    }

    /// A new empty directory, attached nowhere yet.
    pub fn new_dir(&mut self) -> (r: usize)
        requires
            old(self).wf(),
        ensures
            final(self).wf(),
            r == old(self).nodes().len(),
            final(self).nodes().len() == old(self).nodes().len() + 1,
            final(self).is_dir(r as int),
            final(self).entries(r as int).len() == 0,
            final(self).nodes()[r as int].idx.0 == old(self).next_id(),
            final(self).next_id() == old(self).next_id().wrapping_add(1),
            forall|n: int| 0 <= n < old(self).nodes().len() ==> final(self).nodes()[n] == old(self).nodes()[n],
            final(self).extends(old(self)),
    {
        self.push_node(InodeKind::Directory { entries: Vec::new() })
    }

    /// A new file holding `data` from the boot archive, attached nowhere yet.
    pub fn new_initrd_file(&mut self, data: Vec<u8>) -> (r: usize)
        requires
            old(self).wf(),
        ensures
            final(self).wf(),
            r == old(self).nodes().len(),
            final(self).nodes().len() == old(self).nodes().len() + 1,
            final(self).nodes()[r as int].kind matches InodeKind::File { data: FileData::Initrd(d) } && d@
                == data@,
            final(self).nodes()[r as int].idx.0 == old(self).next_id(),
            final(self).next_id() == old(self).next_id().wrapping_add(1),
            forall|n: int| 0 <= n < old(self).nodes().len() ==> final(self).nodes()[n] == old(self).nodes()[n],
            final(self).extends(old(self)),
    {
        self.push_node(InodeKind::File { data: FileData::Initrd(data) })
    }

    /// A new empty file in memory, attached nowhere yet.
    pub fn new_mem_file(&mut self) -> (r: usize)
        requires
            old(self).wf(),
        ensures
            final(self).wf(),
            r == old(self).nodes().len(),
            final(self).nodes().len() == old(self).nodes().len() + 1,
            final(self).nodes()[r as int].kind matches InodeKind::File { data: FileData::Memory(d) } && d@.len()
                == 0,
            final(self).nodes()[r as int].idx.0 == old(self).next_id(),
            final(self).next_id() == old(self).next_id().wrapping_add(1),
            forall|n: int| 0 <= n < old(self).nodes().len() ==> final(self).nodes()[n] == old(self).nodes()[n],
            final(self).extends(old(self)),
    {
        self.push_node(InodeKind::File { data: FileData::Memory(Vec::new()) })
    }

    /// A new device node, attached nowhere yet.
    pub fn new_device(&mut self, device: DeviceKind) -> (r: usize)
        requires
            old(self).wf(),
        ensures
            final(self).wf(),
            r == old(self).nodes().len(),
            final(self).nodes().len() == old(self).nodes().len() + 1,
            final(self).nodes()[r as int].kind == (InodeKind::Device { device }),
            final(self).nodes()[r as int].idx.0 == old(self).next_id(),
            final(self).next_id() == old(self).next_id().wrapping_add(1),
            forall|n: int| 0 <= n < old(self).nodes().len() ==> final(self).nodes()[n] == old(self).nodes()[n],
            final(self).extends(old(self)),
    {
        self.push_node(InodeKind::Device { device })
    }

    /// Inserts the entry `name` for `child` in directory `d`, where `name` is new.
    #[verifier::spinoff_prover]
    #[verifier::rlimit(40)]
    fn insert_entry(&mut self, d: usize, name: &str, child: usize)
        requires
            old(self).wf(),
            old(self).is_dir(d as int),
            child < old(self).nodes().len(),
            old(self).child(d as int, name@) is None,
        ensures
            final(self).wf(),
            inserted(old(self), final(self), d as int, name@, child as int),
            final(self).extends(old(self)),
            final(self).child(d as int, name@) == Some(child as int),
    {
        let ghost o = *old(self);
        let ghost old_es = o.entries(d as int);
        let p = match &self.nodes[d].kind {
            InodeKind::Directory { entries } => {
                match search_entries(entries, name) {
                    Ok(i) => {
                        proof {
                            lemma_lookup_at(entries@, name@, i as int);
                        }
                        0
                    },
                    Err(p) => p,
                }
            },
            _ => 0,
        };
        match &mut self.nodes[d].kind {
            InodeKind::Directory { entries } => {
                entries.insert(p, DirEntry { name: name.to_owned(), inode: child });
            },
            _ => {},
        }
        proof {
            let new_es = self.entries(d as int);
            assert(new_es.len() == old_es.len() + 1);
            assert(new_es[p as int].name@ == name@);
            assert(new_es.remove(p as int) =~= old_es);
            assert(sorted_entries(new_es)) by {
                assert forall|i: int, j: int| 0 <= i < j < new_es.len() implies lex_lt(
                    #[trigger] new_es[i].name@,
                    #[trigger] new_es[j].name@,
                ) by {
                    if i < p && j == p {
                    } else if i == p && j > p {
                        assert(new_es[j] == old_es[j - 1]);
                    } else if i < p && j > p {
                        assert(new_es[j] == old_es[j - 1]);
                    } else if i > p {
                        assert(new_es[j] == old_es[j - 1]);
                        assert(new_es[i] == old_es[i - 1]);
                    }
                }
            }
            lemma_lookup_at(new_es, name@, p as int);
            assert forall|n: int| 0 <= n < self.nodes().len() implies sorted_entries(#[trigger] self.entries(n)) by {
                if n != d {
                    assert(self.nodes()[n] == o.nodes()[n]);
                    assert(self.entries(n) == o.entries(n));
                }
            }
            assert forall|n: int, i: int|
                0 <= n < self.nodes().len() && 0 <= i < self.entries(n).len() implies (#[trigger] self.entries(
                n,
            )[i]).inode < self.nodes().len() by {
                if n != d {
                    assert(self.nodes()[n] == o.nodes()[n]);
                    assert(self.entries(n) == o.entries(n));
                    assert(o.entries(n)[i].inode < o.nodes().len());
                } else if i < p {
                    assert(new_es[i] == old_es[i]);
                    assert(o.entries(n)[i].inode < o.nodes().len());
                } else if i > p {
                    assert(new_es[i] == old_es[i - 1]);
                    assert(o.entries(n)[i - 1].inode < o.nodes().len());
                }
            }
            assert forall|n: int, nm: Seq<char>|
                0 <= n < o.nodes().len() && (#[trigger] o.child(n, nm)) is Some implies self.child(n, nm)
                == o.child(n, nm) by {
                if n != d {
                    assert(self.nodes()[n] == o.nodes()[n]);
                } else {
                    let k = choose|k: int| #[trigger] names_at(old_es, nm, k);
                    lemma_lookup_at(old_es, nm, k);
                    if k < p {
                        assert(new_es[k] == old_es[k]);
                        lemma_lookup_at(new_es, nm, k);
                    } else {
                        assert(new_es[k + 1] == old_es[k]);
                        lemma_lookup_at(new_es, nm, k + 1);
                    }
                }
            }
            assert forall|n: int| 0 <= n < o.nodes().len() implies #[trigger] self.is_dir(n) == o.is_dir(n) by {
                if n != d {
                    assert(self.nodes()[n] == o.nodes()[n]);
                }
            }
        }
    }

    /// Adds `child` to directory `parent` under `name`.
    fn add_child_to_inode_dir(&mut self, parent: usize, name: &str, child: usize) -> (r: Result<(), FileError>)
        requires
            old(self).wf(),
            parent < old(self).nodes().len(),
            child < old(self).nodes().len(),
        ensures
            final(self).wf(),
            if name@.len() == 0 || name@.contains('/') {
                &&& r matches Err(FileError::InvalidPath { path: p }) && p@ == name@
                &&& *final(self) == *old(self)
            } else if !old(self).is_dir(parent as int) {
                &&& r matches Err(FileError::DirExpected { file_should_be_dir: Some(f), path: p }) && f@ == name@
                    && p@.len() == 0
                &&& *final(self) == *old(self)
            } else if old(self).child(parent as int, name@) is Some {
                &&& r matches Err(FileError::FileAlreadyExists { path: p }) && p@ == name@
                &&& *final(self) == *old(self)
            } else {
                &&& r is Ok
                &&& inserted(old(self), final(self), parent as int, name@, child as int)
                &&& final(self).extends(old(self))
                &&& final(self).child(parent as int, name@) == Some(child as int)
            },
    {
        if name.unicode_len() == 0 || has_slash(name) {
            return Err(FileError::InvalidPath { path: name.to_owned() });
        }
        if !self.is_dir_node(parent) {
            return Err(FileError::DirExpected { file_should_be_dir: Some(name.to_owned()), path: String::new() });
        }
        if self.child_of(parent, name).is_some() {
            return Err(FileError::FileAlreadyExists { path: name.to_owned() });
        }
        self.insert_entry(parent, name, child);
        Ok(())
    }
}

/// Growing the tree keeps every walk that succeeded.
pub proof fn lemma_extends_walk(old: &Vfs, new: &Vfs, start: int, comps: Seq<Seq<char>>)
    requires
        old.wf(),
        new.extends(old),
        0 <= start < old.nodes().len(),
        old.walk(start, comps) is Ok,
    ensures
        new.walk(start, comps) == old.walk(start, comps),
        0 <= old.walk(start, comps)->Ok_0 < old.nodes().len(),
    decreases comps.len(),
{
    if comps.len() > 0 {
        lemma_extends_walk(old, new, start, comps.drop_last());
        let cur = old.walk(start, comps.drop_last())->Ok_0;
        assert(new.is_dir(cur) == old.is_dir(cur));
        let nm = comps.last();
        assert(old.child(cur, nm) is Some);
        assert(new.child(cur, nm) == old.child(cur, nm));
        let es = old.entries(cur);
        let k = choose|k: int| #[trigger] names_at(es, nm, k);
        assert(old.entries(cur)[k].inode < old.nodes().len());
    }
}

/// A failed file operation with the path in the error replaced by `path`,
/// for the errors that carry the path of the whole operation.
pub fn fix_error_with_path<T>(res: Result<T, FileError>, path: String) -> (r: Result<T, FileError>)
    ensures
        match res {
            Err(FileError::DirPathNotFound { dir_not_found, .. }) => r matches Err(
                FileError::DirPathNotFound { dir_not_found: d, path: p },
            ) && d == dir_not_found && p@ == path@,
            Err(FileError::DirExpected { file_should_be_dir, .. }) => r matches Err(
                FileError::DirExpected { file_should_be_dir: f, path: p },
            ) && f == file_should_be_dir && p@ == path@,
            Err(FileError::FileNotFound { .. }) => r matches Err(FileError::FileNotFound { path: p }) && p@ == path@,
            Err(FileError::FileAlreadyExists { .. }) => r matches Err(FileError::FileAlreadyExists { path: p }) && p@
                == path@,
            _ => r == res,
        },
{
    match res {
        Err(FileError::DirPathNotFound { dir_not_found, path: _ }) => Err(FileError::DirPathNotFound { dir_not_found, path }),
        Err(FileError::DirExpected { file_should_be_dir, path: _ }) => Err(FileError::DirExpected { file_should_be_dir, path }),
        Err(FileError::FileNotFound { path: _ }) => Err(FileError::FileNotFound { path }),
        Err(FileError::FileAlreadyExists { path: _ }) => Err(FileError::FileAlreadyExists { path }),
        f => f,
    }
}

impl Vfs {
    /// Follows `comps` from the root through directories only: the directory
    /// reached, or the position of the first component that names nothing
    /// (`false`) or names something other than a directory (`true`).
    pub open spec fn dir_chain(&self, comps: Seq<Seq<char>>) -> Result<int, (int, bool)>
        decreases comps.len(),
    {
        if comps.len() == 0 {
            Ok(0)
        } else {
            match self.dir_chain(comps.drop_last()) {
                Err(e) => Err(e),
                Ok(cur) => match self.child(cur, comps.last()) {
                    None => Err((comps.len() - 1, false)),
                    Some(n) => if self.is_dir(n) {
                        Ok(n)
                    } else {
                        Err((comps.len() - 1, true))
                    },
                },
            }
        }
    }
}

proof fn lemma_chain_stuck(fs: &Vfs, cs: Seq<Seq<char>>, k: int)
    requires
        0 <= k <= cs.len(),
        fs.dir_chain(cs.subrange(0, k)) is Err,
    ensures
        fs.dir_chain(cs.subrange(0, cs.len() as int)) == fs.dir_chain(cs.subrange(0, k)),
    decreases cs.len() - k,
{
    if k < cs.len() {
        assert(cs.subrange(0, k + 1).drop_last() =~= cs.subrange(0, k));
        lemma_chain_stuck(fs, cs, k + 1);
    }
}

/// A chain of directories is also a walk.
proof fn lemma_chain_walk(fs: &Vfs, cs: Seq<Seq<char>>)
    requires
        fs.wf(),
        fs.dir_chain(cs) is Ok,
    ensures
        fs.walk(0, cs) == Ok::<int, WalkError>(fs.dir_chain(cs)->Ok_0),
        fs.is_dir(fs.dir_chain(cs)->Ok_0),
    decreases cs.len(),
{
    if cs.len() > 0 {
        lemma_chain_walk(fs, cs.drop_last());
    }
}

impl Vfs {
    /// Attaches node `node` at `path`. Missing directories on the way are made
    /// when `create_parents` holds; otherwise they are an error.
    #[verifier::spinoff_prover]
    #[verifier::rlimit(40)]
    pub fn add_inode_to_vfs_tree(&mut self, path: &str, node: usize, create_parents: bool) -> (r: Result<(), FileError>)
        requires
            old(self).wf(),
            node < old(self).nodes().len(),
        ensures
            final(self).wf(),
            final(self).extends(old(self)),
            ({
                let comps = nonempty_components(path@);
                let parents = comps.drop_last();
                let name = comps.last();
                if comps.len() == 0 {
                    &&& r matches Err(FileError::InvalidPath { path: p }) && p@ == path@
                    &&& *final(self) == *old(self)
                } else {
                    match old(self).dir_chain(parents) {
                        Err((k, true)) => {
                            &&& r matches Err(FileError::DirExpected { file_should_be_dir: Some(f), path: p }) && f@
                                == parents[k] && p@ == path@
                            &&& *final(self) == *old(self)
                        },
                        Err((k, false)) => if create_parents {
                            &&& r is Ok
                            &&& final(self).resolve_path(path@) == Ok::<int, WalkError>(node as int)
                            &&& final(self).nodes().len() == old(self).nodes().len() + parents.len() - k
                            &&& forall|j: int|
                                old(self).nodes().len() <= j < final(self).nodes().len()
                                    ==> #[trigger] final(self).is_dir(j)
                            &&& forall|m: int|
                                k <= m < parents.len() ==> #[trigger] final(self).walk(0, parents.subrange(0, m + 1))
                                    == Ok::<int, WalkError>(old(self).nodes().len() + m - k)
                        } else {
                            &&& r matches Err(FileError::DirPathNotFound { dir_not_found: f, path: p }) && f@
                                == parents[k] && p@ == path@
                            &&& *final(self) == *old(self)
                        },
                        Ok(d) => if old(self).child(d, name) is Some {
                            &&& r matches Err(FileError::FileAlreadyExists { path: p }) && p@ == path@
                            &&& *final(self) == *old(self)
                        } else {
                            &&& r is Ok
                            &&& inserted(old(self), final(self), d, name, node as int)
                            &&& final(self).resolve_path(path@) == Ok::<int, WalkError>(node as int)
                        },
                    }
                }
            }),
    {
        let comps = path_components(path);
        let ghost cs = views(comps@);
        if comps.len() == 0 {
            return Err(FileError::InvalidPath { path: path.to_owned() });
        }
        let last = comps.len() - 1;
        let ghost parents = cs.drop_last();
        let ghost o = *self;
        let mut current: usize = 0;
        let mut i: usize = 0;
        let mut missing = false;
        proof {
            assert(parents.subrange(0, 0) =~= Seq::<Seq<char>>::empty());
        }
        while i < last && !missing
            invariant
                *self == o,
                o.wf(),
                cs == views(comps@),
                cs == nonempty_components(path@),
                last == cs.len() - 1,
                parents == cs.drop_last(),
                i <= last,
                current < o.nodes().len(),
                o.dir_chain(parents.subrange(0, i as int)) == Ok::<int, (int, bool)>(current as int),
                missing ==> i < last && o.dir_chain(parents.subrange(0, i + 1)) == Err::<int, (int, bool)>(
                    (i as int, false),
                ),
            decreases last - i + (if missing { 0int } else { 1int }),
        {
            let c = comps[i];
            proof {
                assert(parents.subrange(0, i + 1).drop_last() =~= parents.subrange(0, i as int));
                assert(parents.subrange(0, i + 1).last() == c@);
                lemma_chain_walk(&o, parents.subrange(0, i as int));
            }
            match self.child_of(current, c) {
                Some(n) => {
                    if self.is_dir_node(n) {
                        current = n;
                        i = i + 1;
                    } else {
                        proof {
                            lemma_chain_stuck(&o, parents, i + 1);
                            assert(parents.subrange(0, parents.len() as int) =~= parents);
                        }
                        return Err(
                            FileError::DirExpected { file_should_be_dir: Some(c.to_owned()), path: path.to_owned() },
                        );
                    }
                },
                None => {
                    missing = true;
                },
            }
        }
        proof {
            lemma_chain_walk(&o, parents.subrange(0, i as int));
            if missing {
                lemma_chain_stuck(&o, parents, i + 1);
            }
            assert(parents.subrange(0, parents.len() as int) =~= parents);
        }
        let ghost stuck_at = i as int;
        if missing {
            if !create_parents {
                return Err(FileError::DirPathNotFound { dir_not_found: comps[i].to_owned(), path: path.to_owned() });
            }
            let ghost k = i;
            proof {
                assert(cs.subrange(0, i as int) =~= parents.subrange(0, i as int));
                assert(parents.subrange(0, i + 1).drop_last() =~= parents.subrange(0, i as int));
                assert(parents.subrange(0, i + 1).last() == cs[i as int]);
                assert(*self == o);
            }
            while i < last
                invariant
                    o.wf(),
                    self.wf(),
                    self.extends(&o),
                    cs == views(comps@),
                    cs == nonempty_components(path@),
                    last == cs.len() - 1,
                    parents == cs.drop_last(),
                    k <= i <= last,
                    node < o.nodes().len(),
                    current < self.nodes().len(),
                    self.is_dir(current as int),
                    self.walk(0, cs.subrange(0, i as int)) == Ok::<int, WalkError>(current as int),
                    self.child(current as int, cs[i as int]) is None,
                    self.nodes().len() == o.nodes().len() + i - k,
                    forall|j: int| o.nodes().len() <= j < self.nodes().len() ==> #[trigger] self.is_dir(j),
                    i > k ==> current >= o.nodes().len(),
                    forall|m: int|
                        k <= m < i ==> #[trigger] self.walk(0, cs.subrange(0, m + 1)) == Ok::<int, WalkError>(
                            o.nodes().len() + m - k,
                        ),
                decreases last - i,
            {
                let c = comps[i];
                let ghost s0 = *self;
                let d = self.new_dir();
                let ghost s1 = *self;
                proof {
                    assert(self.nodes()[current as int] == s0.nodes()[current as int]);
                    assert(self.entries(current as int) == s0.entries(current as int));
                }
                self.insert_entry(current, c, d);
                proof {
                    assert(cs.subrange(0, i + 1).drop_last() =~= cs.subrange(0, i as int));
                    assert(cs.subrange(0, i + 1).last() == c@);
                    lemma_extends_walk(&s0, &s1, 0, cs.subrange(0, i as int));
                    lemma_extends_walk(&s1, self, 0, cs.subrange(0, i as int));
                    assert forall|m: int| k <= m < i implies #[trigger] self.walk(0, cs.subrange(0, m + 1)) == Ok::<
                        int,
                        WalkError,
                    >(o.nodes().len() + m - k) by {
                        lemma_extends_walk(&s0, &s1, 0, cs.subrange(0, m + 1));
                        lemma_extends_walk(&s1, self, 0, cs.subrange(0, m + 1));
                    }
                    assert(self.nodes()[d as int] == s1.nodes()[d as int]);
                    assert(self.entries(d as int).len() == 0);
                    assert forall|j: int| o.nodes().len() <= j < self.nodes().len() implies #[trigger] self.is_dir(j) by {
                        if j < s0.nodes().len() {
                            assert(s1.is_dir(j) == s0.is_dir(j));
                        }
                    }
                    assert(self.extends(&o)) by {
                        assert forall|n: int| 0 <= n < o.nodes().len() implies #[trigger] self.is_dir(n) == o.is_dir(n) by {
                            assert(s0.is_dir(n) == o.is_dir(n));
                            assert(s1.is_dir(n) == s0.is_dir(n));
                        }
                        assert forall|n: int| 0 <= n < o.nodes().len() && !o.is_dir(n) implies #[trigger] self.nodes()[n] == o.nodes()[n] by {
                            assert(s0.is_dir(n) == o.is_dir(n));
                            assert(s1.is_dir(n) == s0.is_dir(n));
                            assert(s0.nodes()[n] == o.nodes()[n]);
                            assert(s1.nodes()[n] == s0.nodes()[n]);
                        }
                        assert forall|n: int, nm: Seq<char>|
                            0 <= n < o.nodes().len() && (#[trigger] o.child(n, nm)) is Some implies self.child(n, nm)
                            == o.child(n, nm) by {
                            assert(s0.child(n, nm) == o.child(n, nm));
                            assert(s1.child(n, nm) == s0.child(n, nm));
                        }
                    }
                }
                current = d;
                i = i + 1;
            }
        }
        let name = comps[last];
        let ghost s2 = *self;
        proof {
            assert(cs.subrange(0, last as int) =~= parents);
            if !missing {
                lemma_chain_walk(&o, parents);
            }
        }
        let res = self.add_child_to_inode_dir(current, name, node);
        proof {
            assert(name@ == cs[last as int]);
            assert(cs.last() == name@);
            lemma_components_are_names(path@);
            assert(name@.len() > 0 && !name@.contains('/'));
            assert(cs.drop_last() == cs.subrange(0, last as int));
            assert(cs.subrange(0, cs.len() as int) =~= cs);
            lemma_extends_walk(&s2, self, 0, parents);
            if missing {
                assert forall|m: int| stuck_at <= m < parents.len() implies #[trigger] self.walk(
                    0,
                    parents.subrange(0, m + 1),
                ) == Ok::<int, WalkError>(o.nodes().len() + m - stuck_at) by {
                    assert(parents.subrange(0, m + 1) =~= cs.subrange(0, m + 1));
                    lemma_extends_walk(&s2, self, 0, cs.subrange(0, m + 1));
                }
            }
        }
        fix_error_with_path(res, path.to_owned())
    }
}

/// The bytes of a file.
pub open spec fn file_bytes(d: FileData) -> Seq<u8> {
    match d {
        FileData::Initrd(v) => v@,
        FileData::Memory(v) => v@,
    }
}

/// What `stat` reports for a node of kind `k`.
pub open spec fn stat_of(k: InodeKind) -> Stat {
    match k {
        InodeKind::File { data } => Stat { mode: StatMode::File { size: file_bytes(data).len() as usize } },
        InodeKind::Directory { .. } => Stat { mode: StatMode::Directory },
        InodeKind::Device { .. } => Stat { mode: StatMode::Device },
    }
}

/// How many bytes a read of `len` bytes at `offset` gets from `data`.
pub open spec fn read_count(data: Seq<u8>, offset: int, len: int) -> int {
    if offset >= data.len() {
        0
    } else if len < data.len() - offset {
        len
    } else {
        data.len() - offset
    }
}

/// `out` after reading `data` at `offset` into `before`.
pub open spec fn read_into(data: Seq<u8>, offset: int, before: Seq<u8>, out: Seq<u8>) -> bool {
    let n = read_count(data, offset, before.len() as int);
    &&& out.len() == before.len()
    &&& forall|j: int| 0 <= j < n ==> #[trigger] out[j] == data[offset + j]
    &&& forall|j: int| n <= j < out.len() ==> #[trigger] out[j] == before[j]
}

/// The data of a file after writing `input` at `offset`: a gap after the
/// end is filled with zeros, existing bytes are overwritten, the rest appended.
pub open spec fn spliced(data: Seq<u8>, offset: int, input: Seq<u8>) -> Seq<u8> {
    let d = if offset > data.len() {
        data + Seq::new((offset - data.len()) as nat, |i: int| 0u8)
    } else {
        data
    };
    if offset + input.len() < d.len() {
        d.subrange(0, offset) + input + d.subrange(offset + input.len(), d.len() as int)
    } else {
        d.subrange(0, offset) + input
    }
}

/// Reading back what a write wrote gives the bytes written: after
/// `write_at` of `input` at `offset` on a file made at run time (which leaves
/// its data `spliced(data, offset, input)`), a `read_at` at the same offset
/// into a buffer as long as `input` (which fills it as `read_into` says)
/// reads all of `input` back.
pub proof fn lemma_read_after_write(data: Seq<u8>, offset: int, input: Seq<u8>, before: Seq<u8>, out: Seq<u8>)
    requires
        0 <= offset,
        before.len() == input.len(),
        read_into(spliced(data, offset, input), offset, before, out),
    ensures
        out == input,
        read_count(spliced(data, offset, input), offset, before.len() as int) == input.len(),
{
    let d = spliced(data, offset, input);
    assert(d.len() >= offset + input.len());
    assert forall|j: int| 0 <= j < input.len() implies out[j] == input[j] by {
        assert(d[offset + j] == input[j]);
    }
    assert(out =~= input);
}

/// A write leaves the bytes before `offset` as they were, zero-filled past
/// the old end.
pub proof fn lemma_write_keeps_prefix(data: Seq<u8>, offset: int, input: Seq<u8>, i: int)
    requires
        0 <= i < offset,
    ensures
        spliced(data, offset, input)[i] == if i < data.len() { data[i] } else { 0u8 },
{
}

/// Copies `data[offset..]` into `out`, as much as fits.
fn copy_out(data: &Vec<u8>, offset: usize, out: &mut [u8]) -> (r: usize)
    ensures
        r == read_count(data@, offset as int, old(out)@.len() as int),
        read_into(data@, offset as int, old(out)@, final(out)@),
{
    if offset >= data.len() {
        return 0;
    }
    let dlen = data.len();
    let count = if out.len() < data.len() - offset {
        out.len()
    } else {
        data.len() - offset
    };
    let mut i: usize = 0;
    while i < count
        invariant
            count == read_count(data@, offset as int, old(out)@.len() as int),
            offset < data@.len(),
            offset + count <= data@.len(),
            dlen == data@.len(),
            i <= count,
            out@.len() == old(out)@.len(),
            forall|j: int| 0 <= j < i ==> out@[j] == data@[offset + j],
            forall|j: int| i <= j < out@.len() ==> out@[j] == old(out)@[j],
        decreases count - i,
    {
        out[i] = data[offset + i];
        i = i + 1;
    }
    count
}

/// Writes `input` into `data` at `offset`.
fn write_into(data: &mut Vec<u8>, offset: usize, input: &[u8])
    ensures
        final(data)@ == spliced(old(data)@, offset as int, input@),
{
    let ghost d0 = data@;
    while data.len() < offset
        invariant
            d0 == old(data)@,
            data@.len() <= offset || data@.len() == d0.len(),
            d0.len() <= data@.len(),
            data@.subrange(0, d0.len() as int) == d0,
            forall|j: int| d0.len() <= j < data@.len() ==> data@[j] == 0u8,
        decreases offset - data@.len(),
    {
        data.push(0u8);
        proof {
            assert(data@.subrange(0, d0.len() as int) =~= d0);
        }
    }
    let ghost d1 = data@;
    proof {
        let filled = if offset > d0.len() {
            d0 + Seq::new((offset - d0.len()) as nat, |i: int| 0u8)
        } else {
            d0
        };
        assert(d1 =~= filled);
    }
    let len = data.len();
    let overwrite_len = if input.len() < len - offset {
        input.len()
    } else {
        len - offset
    };
    let mut i: usize = 0;
    while i < overwrite_len
        invariant
            len == d1.len(),
            offset <= len,
            overwrite_len <= input@.len(),
            offset + overwrite_len <= len,
            i <= overwrite_len,
            data@.len() == len,
            forall|j: int| 0 <= j < offset ==> data@[j] == d1[j],
            forall|j: int| 0 <= j < i ==> data@[offset + j] == input@[j],
            forall|j: int| offset + i <= j < len ==> data@[j] == d1[j],
        decreases overwrite_len - i,
    {
        data.set(offset + i, input[i]);
        i = i + 1;
    }
    let mut k: usize = overwrite_len;
    while k < input.len()
        invariant
            len == d1.len(),
            offset <= len,
            overwrite_len <= k <= input@.len(),
            overwrite_len == input@.len() || offset + overwrite_len == len,
            data@.len() == len + k - overwrite_len,
            forall|j: int| 0 <= j < offset ==> data@[j] == d1[j],
            forall|j: int| 0 <= j < k ==> data@[offset + j] == input@[j],
            forall|j: int| offset + overwrite_len <= j < len ==> data@[j] == d1[j],
        decreases input@.len() - k,
    {
        data.push(input[k]);
        k = k + 1;
    }
    proof {
        let want = spliced(d0, offset as int, input@);
        assert(data@.len() == want.len());
        assert(data@ =~= want);
    }
}

impl Vfs {
    /// The status of node `n`.
    pub fn stat(&self, n: usize) -> (r: Stat)
        requires
            n < self.nodes().len(),
        ensures
            r == stat_of(self.nodes()[n as int].kind),
    {
        match &self.nodes[n].kind {
            InodeKind::File { data } => {
                let size = match data {
                    FileData::Initrd(v) => v.len(),
                    FileData::Memory(v) => v.len(),
                };
                Stat { mode: StatMode::File { size } }
            },
            InodeKind::Directory { .. } => Stat { mode: StatMode::Directory },
            InodeKind::Device { .. } => Stat { mode: StatMode::Device },
        }
    }

    /// The status of node `n`; it cannot fail.
    pub fn file_stat_inode(&self, n: usize) -> (r: Result<Stat, FileError>)
        requires
            n < self.nodes().len(),
        ensures
            r == Ok::<Stat, FileError>(stat_of(self.nodes()[n as int].kind)),
    {
        Ok(self.stat(n))
    }

    /// The status of the node `path` names.
    pub fn file_stat(&self, path: &str) -> (r: Result<Stat, FileError>)
        requires
            self.wf(),
        ensures
            match self.resolve_path(path@) {
                Ok(n) => r == Ok::<Stat, FileError>(stat_of(self.nodes()[n].kind)),
                Err(WalkError::Missing) => r matches Err(FileError::FileNotFound { path: p }) && p@ == path@,
                Err(WalkError::NotDir(c)) => r matches Err(
                    FileError::DirExpected { file_should_be_dir: Some(c2), path: p },
                ) && c2@ == c && p@ == path@,
            },
    {
        let n = match self.get_inode(path) {
            Ok(n) => n,
            Err(e) => return Err(e),
        };
        proof {
            lemma_walk_in_range(self, 0, nonempty_components(path@));
        }
        self.file_stat_inode(n)
    }

    /// The boot-archive bytes of node `n`, if it is such a file.
    pub fn initrd_content(&self, n: usize) -> (r: Option<&Vec<u8>>)
        requires
            n < self.nodes().len(),
        ensures
            match self.nodes()[n as int].kind {
                InodeKind::File { data: FileData::Initrd(v) } => r == Some(&v),
                _ => r is None,
            },
    {
        match &self.nodes[n].kind {
            InodeKind::File { data: FileData::Initrd(content) } => Some(content),
            _ => None,
        }
    }

    /// Reads from node `n` at `offset` into `out`.
    pub fn read_at(&self, n: usize, offset: usize, out: &mut [u8], devices: &mut Devices) -> (r: Result<
        usize,
        FileError,
    >)
        requires
            n < self.nodes().len(),
            old(devices).wf(),
        ensures
            final(devices).wf(),
            match self.nodes()[n as int].kind {
                InodeKind::File { data } => {
                    &&& r == Ok::<usize, FileError>(
                        read_count(file_bytes(data), offset as int, old(out)@.len() as int) as usize,
                    )
                    &&& read_into(file_bytes(data), offset as int, old(out)@, final(out)@)
                    &&& *final(devices) == *old(devices)
                },
                InodeKind::Directory { .. } => {
                    &&& r matches Err(FileError::FileExpected { path: p }) && p@.len() == 0
                    &&& final(out)@ == old(out)@
                    &&& *final(devices) == *old(devices)
                },
                InodeKind::Device { device } => device_read_outcome(
                    device,
                    *old(devices),
                    *final(devices),
                    old(out)@,
                    final(out)@,
                    r,
                ),
            },
    {
        match &self.nodes[n].kind {
            InodeKind::File { data } => {
                let v = match data {
                    FileData::Initrd(v) => v,
                    FileData::Memory(v) => v,
                };
                Ok(copy_out(v, offset, out))
            },
            InodeKind::Device { device } => device_read(*device, devices, offset, out),
            InodeKind::Directory { .. } => Err(FileError::FileExpected { path: String::new() }),
        }
    }

    /// Writes `input` to node `n` at `offset`.
    pub fn write_at(&mut self, n: usize, offset: usize, input: &[u8], devices: &mut Devices) -> (r: Result<
        usize,
        FileError,
    >)
        requires
            old(self).wf(),
            n < old(self).nodes().len(),
            old(devices).wf(),
            no_home(old(devices).console@, input@),
        ensures
            final(self).wf(),
            final(devices).wf(),
            match old(self).nodes()[n as int].kind {
                InodeKind::File { data: FileData::Memory(v) } => {
                    &&& r == Ok::<usize, FileError>(input@.len() as usize)
                    &&& final(self).nodes().len() == old(self).nodes().len()
                    &&& final(self).next_id() == old(self).next_id()
                    &&& forall|m: int| 0 <= m < old(self).nodes().len() && m != n ==> final(self).nodes()[m]
                        == old(self).nodes()[m]
                    &&& final(self).nodes()[n as int].idx == old(self).nodes()[n as int].idx
                    &&& final(self).nodes()[n as int].kind matches InodeKind::File {
                        data: FileData::Memory(w),
                    } && w@ == spliced(v@, offset as int, input@)
                    &&& *final(devices) == *old(devices)
                },
                InodeKind::File { data: FileData::Initrd(_) } => {
                    &&& r matches Err(FileError::NotWritableFile)
                    &&& *final(self) == *old(self)
                    &&& *final(devices) == *old(devices)
                },
                InodeKind::Directory { .. } => {
                    &&& r matches Err(FileError::FileExpected { path: p }) && p@.len() == 0
                    &&& *final(self) == *old(self)
                    &&& *final(devices) == *old(devices)
                },
                InodeKind::Device { device } => {
                    &&& *final(self) == *old(self)
                    &&& device_write_outcome(device, *old(devices), *final(devices), input@, r)
                },
            },
    {
        let device = match &self.nodes[n].kind {
            InodeKind::File { data: FileData::Initrd(_) } => {
                return Err(FileError::NotWritableFile);
            },
            InodeKind::Directory { .. } => {
                return Err(FileError::FileExpected { path: String::new() });
            },
            InodeKind::Device { device } => Some(*device),
            InodeKind::File { data: FileData::Memory(_) } => None,
        };
        match device {
            Some(d) => device_write(d, devices, offset, input),
            None => {
                let ghost o = *self;
                match &mut self.nodes[n].kind {
                    InodeKind::File { data: FileData::Memory(v) } => {
                        write_into(v, offset, input);
                    },
                    _ => {},
                }
                proof {
                    assert forall|m: int| 0 <= m < self.nodes().len() implies sorted_entries(#[trigger] self.entries(m)) by {
                        assert(self.entries(m) == o.entries(m));
                    }
                    assert forall|m: int, i: int|
                        0 <= m < self.nodes().len() && 0 <= i < self.entries(m).len() implies (#[trigger] self.entries(
                        m,
                    )[i]).inode < self.nodes().len() by {
                        assert(self.entries(m) == o.entries(m));
                    }
                }
                Ok(input.len())
            },
        }
    }
}

/// A walk that succeeds ends inside the arena.
pub proof fn lemma_walk_in_range(fs: &Vfs, start: int, comps: Seq<Seq<char>>)
    requires
        fs.wf(),
        0 <= start < fs.nodes().len(),
        fs.walk(start, comps) is Ok,
    ensures
        0 <= fs.walk(start, comps)->Ok_0 < fs.nodes().len(),
{
    lemma_extends_walk(fs, fs, start, comps);
}

/// The directory-entry kind number of a node of kind `k`.
pub open spec fn dirent_kind(k: InodeKind) -> u8 {
    match k {
        InodeKind::Directory { .. } => DIRENT_DIR,
        InodeKind::File { .. } => DIRENT_FILE,
        InodeKind::Device { .. } => DIRENT_DEVICE,
    }
}

/// `d` describes a child named `name` of kind number `kind`: at most
/// `PATH_NAME_MAX` bytes of the name, zeros after them.
pub open spec fn dirent_describes(d: DirChild, name: Seq<char>, kind: u8) -> bool {
    let bytes = encode_utf8(name);
    let n = if bytes.len() < PATH_NAME_MAX { bytes.len() as int } else { PATH_NAME_MAX as int };
    &&& d.kind == kind
    &&& d.name_len == n
    &&& forall|j: int| 0 <= j < n ==> #[trigger] d.name@[j] == bytes[j]
    &&& forall|j: int| n <= j < PATH_NAME_MAX ==> #[trigger] d.name@[j] == 0u8
}

/// How many entries a listing from `start` into `out_len` slots returns.
pub open spec fn listed_count(len: int, start: int, out_len: int) -> int {
    if start >= len {
        0
    } else if out_len < len - start {
        out_len
    } else {
        len - start
    }
}

/// What a write of `input` at `offset` leaves in a file that held `data`:
/// as long as the longer of the old file and the written end; the bytes
/// before `offset` kept, a gap past the old end filled with zeros, the
/// input at `offset`, and every old byte after the written ones kept.
pub proof fn lemma_write_layout(data: Seq<u8>, offset: int, input: Seq<u8>)
    requires
        0 <= offset,
    ensures
        ({
            let r = spliced(data, offset, input);
            &&& r.len() == if data.len() > offset + input.len() { data.len() as int } else { offset + input.len() }
            &&& forall|j: int| 0 <= j < offset && j < data.len() ==> r[j] == data[j]
            &&& forall|j: int| data.len() <= j < offset ==> r[j] == 0u8
            &&& forall|j: int| 0 <= j < input.len() ==> r[offset + j] == input[j]
            &&& forall|j: int| offset + input.len() <= j < data.len() ==> r[j] == data[j]
        }),
{
    let d = if offset > data.len() {
        data + Seq::new((offset - data.len()) as nat, |i: int| 0u8)
    } else {
        data
    };
    let r = spliced(data, offset, input);
    assert forall|j: int| 0 <= j < offset && j < data.len() implies r[j] == data[j] by {
        assert(r[j] == d[j]);
    }
    assert forall|j: int| data.len() <= j < offset implies r[j] == 0u8 by {
        assert(r[j] == d[j]);
    }
    assert forall|j: int| 0 <= j < input.len() implies r[offset + j] == input[j] by {
    }
    assert forall|j: int| offset + input.len() <= j < data.len() implies r[j] == data[j] by {
        assert(r[j] == d[j]);
    }
}

/// A `write_at` on a file made at run time, seen on the file system before
/// and after it: the file is as long as the longer of its old length and
/// the written end, and keeps every old byte it did not write over (a gap
/// past the old end reads as zeros).
pub proof fn lemma_write_at_keeps_rest(before: &Vfs, after: &Vfs, n: int, offset: int, input: Seq<u8>)
    requires
        0 <= offset,
        before.nodes()[n].kind matches InodeKind::File { data: FileData::Memory(v) },
        after.nodes()[n].kind matches InodeKind::File { data: FileData::Memory(w) } && w@ == spliced(
            file_bytes(before.nodes()[n].kind->data),
            offset,
            input,
        ),
    ensures
        ({
            let old_data = file_bytes(before.nodes()[n].kind->data);
            let new_data = file_bytes(after.nodes()[n].kind->data);
            &&& new_data.len() == if old_data.len() > offset + input.len() {
                old_data.len() as int
            } else {
                offset + input.len()
            }
            &&& forall|j: int| 0 <= j < offset && j < old_data.len() ==> new_data[j] == old_data[j]
            &&& forall|j: int| old_data.len() <= j < offset ==> new_data[j] == 0u8
            &&& forall|j: int| 0 <= j < input.len() ==> new_data[offset + j] == input[j]
            &&& forall|j: int| offset + input.len() <= j < old_data.len() ==> new_data[j] == old_data[j]
        }),
{
    lemma_write_layout(file_bytes(before.nodes()[n].kind->data), offset, input);
}

/// A `read_at` right after a `write_at` on a file made at run time, at the
/// same offset and into a buffer as long as what was written, reads back
/// what was written and reports its whole length. `before` and `after` are
/// the file system around the write; `out` is the buffer the read fills.
pub proof fn lemma_write_then_read(
    before: &Vfs,
    after: &Vfs,
    n: int,
    offset: int,
    input: Seq<u8>,
    buf: Seq<u8>,
    out: Seq<u8>,
)
    requires
        0 <= offset,
        before.nodes()[n].kind matches InodeKind::File { data: FileData::Memory(v) },
        after.nodes()[n].kind matches InodeKind::File { data: FileData::Memory(w) } && w@ == spliced(
            file_bytes(before.nodes()[n].kind->data),
            offset,
            input,
        ),
        buf.len() == input.len(),
        read_into(file_bytes(after.nodes()[n].kind->data), offset, buf, out),
    ensures
        out == input,
        read_count(file_bytes(after.nodes()[n].kind->data), offset, buf.len() as int) == input.len(),
{
    lemma_read_after_write(file_bytes(before.nodes()[n].kind->data), offset, input, buf, out);
}

/// The entries `es` from position `start`, `k` of them, are described, in
/// order, by the first `k` slots of `out`.
pub open spec fn lists_entries(fs: &Vfs, es: Seq<DirEntry>, start: int, out: Seq<DirChild>, k: int) -> bool {
    forall|i: int|
        0 <= i < k ==> dirent_describes(
            #[trigger] out[i],
            es[start + i].name@,
            dirent_kind(fs.nodes()[es[start + i].inode as int].kind),
        )
}

/// Two listings of a directory through the same descriptor, the second
/// starting where the first left the offset, list together the entries from
/// the first offset on, each once and in name order, as one listing into
/// both buffers would.
pub proof fn lemma_listings_follow_on(
    fs: &Vfs,
    es: Seq<DirEntry>,
    start: int,
    out1: Seq<DirChild>,
    out2: Seq<DirChild>,
)
    requires
        0 <= start,
        lists_entries(fs, es, start, out1, listed_count(es.len() as int, start, out1.len() as int)),
        lists_entries(
            fs,
            es,
            start + listed_count(es.len() as int, start, out1.len() as int),
            out2,
            listed_count(
                es.len() as int,
                start + listed_count(es.len() as int, start, out1.len() as int),
                out2.len() as int,
            ),
        ),
    ensures
        ({
            let k1 = listed_count(es.len() as int, start, out1.len() as int);
            let k2 = listed_count(es.len() as int, start + k1, out2.len() as int);
            &&& k1 + k2 == listed_count(es.len() as int, start, (out1.len() + out2.len()) as int)
            &&& lists_entries(fs, es, start, out1.subrange(0, k1) + out2.subrange(0, k2), k1 + k2)
        }),
{
    let k1 = listed_count(es.len() as int, start, out1.len() as int);
    let k2 = listed_count(es.len() as int, start + k1, out2.len() as int);
    lemma_listing_resumes(es.len() as int, start, out1.len() as int, out2.len() as int);
    let both = out1.subrange(0, k1) + out2.subrange(0, k2);
    assert forall|i: int| 0 <= i < k1 + k2 implies dirent_describes(
        #[trigger] both[i],
        es[start + i].name@,
        dirent_kind(fs.nodes()[es[start + i].inode as int].kind),
    ) by {
        if i < k1 {
            assert(both[i] == out1[i]);
        } else {
            assert(both[i] == out2[i - k1]);
            assert(start + k1 + (i - k1) == start + i);
        }
    }
}

/// Listing a directory in two calls, the second resuming where the first
/// stopped, gives as many entries as one call with both buffers: every entry
/// comes once, in name order, and a listing from the end is empty.
pub proof fn lemma_listing_resumes(len: int, start: int, a: int, b: int)
    requires
        0 <= start,
        0 <= a,
        0 <= b,
    ensures
        listed_count(len, start, a) + listed_count(len, start + listed_count(len, start, a), b) == listed_count(
            len,
            start,
            a + b,
        ),
        0 <= listed_count(len, start, a) <= a,
        start < len ==> start + listed_count(len, start, a) <= len,
        start >= len ==> listed_count(len, start, a) == 0,
{
}

/// The entry for a child named `name` of kind number `kind`.
fn dir_child_of(name: &str, kind: u8) -> (d: DirChild)
    ensures
        dirent_describes(d, name@, kind),
{
    let bytes = name.as_bytes();
    let n = if bytes.len() < PATH_NAME_MAX {
        bytes.len()
    } else {
        PATH_NAME_MAX
    };
    let mut buf = [0u8; 255];
    let mut j: usize = 0;
    while j < n
        invariant
            n <= bytes@.len(),
            n <= PATH_NAME_MAX,
            j <= n,
            bytes@ == encode_utf8(name@),
            forall|i: int| 0 <= i < j ==> buf@[i] == bytes@[i],
            forall|i: int| j <= i < PATH_NAME_MAX ==> buf@[i] == 0u8,
        decreases n - j,
    {
        buf[j] = bytes[j];
        j = j + 1;
    }
    DirChild { kind, name_len: n as u8, name: buf }
}

impl Vfs {
    /// Lists the entries of directory `n` from position `start_offset`, in
    /// name order, into `out`: as many as fit.
    pub fn read_dir_children(&self, n: usize, start_offset: usize, out: &mut [DirChild]) -> (r: Result<
        usize,
        FileError,
    >)
        requires
            self.wf(),
            n < self.nodes().len(),
        ensures
            !self.is_dir(n as int) ==> (r matches Err(FileError::DirExpected { file_should_be_dir: None, path: p })
                && p@.len() == 0 && final(out)@ == old(out)@),
            self.is_dir(n as int) ==> {
                let es = self.entries(n as int);
                let w = listed_count(es.len() as int, start_offset as int, old(out)@.len() as int);
                &&& r == Ok::<usize, FileError>(w as usize)
                &&& final(out)@.len() == old(out)@.len()
                &&& forall|i: int|
                    0 <= i < w ==> dirent_describes(
                        #[trigger] final(out)@[i],
                        es[start_offset + i].name@,
                        dirent_kind(self.nodes()[es[start_offset + i].inode as int].kind),
                    )
                &&& forall|i: int| w <= i < final(out)@.len() ==> #[trigger] final(out)@[i] == old(out)@[i]
            },
    {
        let entries = match &self.nodes[n].kind {
            InodeKind::Directory { entries } => entries,
            _ => {
                return Err(FileError::DirExpected { file_should_be_dir: None, path: String::new() });
            },
        };
        let ghost es = self.entries(n as int);
        if start_offset >= entries.len() {
            return Ok(0);
        }
        let w = if out.len() < entries.len() - start_offset {
            out.len()
        } else {
            entries.len() - start_offset
        };
        let elen = entries.len();
        let mut i: usize = 0;
        while i < w
            invariant
                self.wf(),
                n < self.nodes().len(),
                es == self.entries(n as int),
                entries@ == es,
                elen == es.len(),
                start_offset < elen,
                w == listed_count(es.len() as int, start_offset as int, old(out)@.len() as int),
                start_offset + w <= elen,
                i <= w,
                out@.len() == old(out)@.len(),
                forall|k: int|
                    0 <= k < i ==> dirent_describes(
                        #[trigger] out@[k],
                        es[start_offset + k].name@,
                        dirent_kind(self.nodes()[es[start_offset + k].inode as int].kind),
                    ),
                forall|k: int| i <= k < out@.len() ==> #[trigger] out@[k] == old(out)@[k],
            decreases w - i,
        {
            let e = &entries[start_offset + i];
            proof {
                assert(e.inode < self.nodes().len());
            }
            let kind = match &self.nodes[e.inode].kind {
                InodeKind::Directory { .. } => DIRENT_DIR,
                InodeKind::File { .. } => DIRENT_FILE,
                InodeKind::Device { .. } => DIRENT_DEVICE,
            };
            let d = dir_child_of(e.name.as_str(), kind);
            out[i] = d;
            i = i + 1;
        }
        Ok(w)
    }

    /// The whole content of file `n`: the archive bytes of a boot file; for a
    /// file made at run time, what a read into an empty buffer gets, that is
    /// nothing.
    pub fn read_entire_file_in_mem(&self, n: usize) -> (r: Result<Vec<u8>, FileError>)
        requires
            n < self.nodes().len(),
        ensures
            match self.nodes()[n as int].kind {
                InodeKind::File { data: FileData::Initrd(v) } => r matches Ok(c) && c@ == v@,
                InodeKind::File { data: FileData::Memory(_) } => r matches Ok(c) && c@.len() == 0,
                _ => r matches Err(FileError::FileExpected { path: p }) && p@.len() == 0,
            },
    {
        match &self.nodes[n].kind {
            InodeKind::File { data: FileData::Initrd(v) } => {
                let c = v.clone();
                proof {
                    assert(c@ =~= v@);
                }
                Ok(c)
            },
            InodeKind::File { data: FileData::Memory(_) } => Ok(Vec::new()),
            _ => Err(FileError::FileExpected { path: String::new() }),
        }
    }

    /// Attaches node `node` at `path`, whose directories must exist.
    pub fn add_inode(&mut self, path: &str, node: usize) -> (r: Result<(), FileError>)
        requires
            old(self).wf(),
            node < old(self).nodes().len(),
        ensures
            final(self).wf(),
            final(self).extends(old(self)),
            ({
                let comps = nonempty_components(path@);
                let parents = comps.drop_last();
                let name = comps.last();
                if comps.len() == 0 {
                    &&& r matches Err(FileError::InvalidPath { path: p }) && p@ == path@
                    &&& *final(self) == *old(self)
                } else {
                    match old(self).dir_chain(parents) {
                        Err((k, true)) => {
                            &&& r matches Err(FileError::DirExpected { file_should_be_dir: Some(f), path: p }) && f@
                                == parents[k] && p@ == path@
                            &&& *final(self) == *old(self)
                        },
                        Err((k, false)) => {
                            &&& r matches Err(FileError::DirPathNotFound { dir_not_found: f, path: p }) && f@
                                == parents[k] && p@ == path@
                            &&& *final(self) == *old(self)
                        },
                        Ok(d) => if old(self).child(d, name) is Some {
                            &&& r matches Err(FileError::FileAlreadyExists { path: p }) && p@ == path@
                            &&& *final(self) == *old(self)
                        } else {
                            &&& r is Ok
                            &&& inserted(old(self), final(self), d, name, node as int)
                            &&& final(self).resolve_path(path@) == Ok::<int, WalkError>(node as int)
                        },
                    }
                }
            }),
    {
        self.add_inode_to_vfs_tree(path, node, false)
    }
}

/// Two file systems that agree on the first `k` nodes, the whole of the
/// first, follow directories alike.
pub proof fn lemma_same_prefix_chain(a: &Vfs, b: &Vfs, comps: Seq<Seq<char>>)
    requires
        a.wf(),
        a.nodes().len() <= b.nodes().len(),
        forall|n: int| 0 <= n < a.nodes().len() ==> b.nodes()[n] == a.nodes()[n],
    ensures
        b.dir_chain(comps) == a.dir_chain(comps),
        b.walk(0, comps) == a.walk(0, comps),
        a.dir_chain(comps) matches Ok(d) ==> 0 <= d < a.nodes().len(),
        a.walk(0, comps) matches Ok(d) ==> 0 <= d < a.nodes().len(),
    decreases comps.len(),
{
    if comps.len() > 0 {
        lemma_same_prefix_chain(a, b, comps.drop_last());
        let nm = comps.last();
        match a.dir_chain(comps.drop_last()) {
            Ok(cur) => {
                assert(b.entries(cur) == a.entries(cur));
                if a.child(cur, nm) is Some {
                    let es = a.entries(cur);
                    let k = choose|k: int| #[trigger] names_at(es, nm, k);
                    assert(es[k].inode < a.nodes().len());
                }
            },
            Err(_) => {},
        }
        match a.walk(0, comps.drop_last()) {
            Ok(cur) => {
                assert(b.entries(cur) == a.entries(cur));
                if a.child(cur, nm) is Some {
                    let es = a.entries(cur);
                    let k = choose|k: int| #[trigger] names_at(es, nm, k);
                    assert(es[k].inode < a.nodes().len());
                }
            },
            Err(_) => {},
        }
    }
}

/// A walk that stops at a missing name passes only through directories.
pub proof fn lemma_missing_walk_chain(fs: &Vfs, comps: Seq<Seq<char>>)
    requires
        fs.wf(),
        fs.walk(0, comps) matches Err(WalkError::Missing),
    ensures
        comps.len() > 0,
        fs.dir_chain(comps.drop_last()) is Ok ==> fs.child(fs.dir_chain(comps.drop_last())->Ok_0, comps.last()) is None,
        fs.dir_chain(comps.drop_last()) is Err ==> fs.dir_chain(comps.drop_last()) matches Err((_, false)),
    decreases comps.len(),
{
    let prefix = comps.drop_last();
    match fs.walk(0, prefix) {
        Err(_) => {
            lemma_missing_walk_chain(fs, prefix);
            lemma_chain_extend_err(fs, prefix);
        },
        Ok(cur) => {
            lemma_walk_chain_ok(fs, prefix);
        },
    }
}

/// When a walk reaches a directory, the chain of directories reaches it too.
proof fn lemma_walk_chain_ok(fs: &Vfs, comps: Seq<Seq<char>>)
    requires
        fs.wf(),
        fs.walk(0, comps) is Ok,
        fs.is_dir(fs.walk(0, comps)->Ok_0),
    ensures
        fs.dir_chain(comps) == Ok::<int, (int, bool)>(fs.walk(0, comps)->Ok_0),
    decreases comps.len(),
{
    if comps.len() > 0 {
        lemma_walk_chain_ok(fs, comps.drop_last());
    }
}

/// A chain that fails at a missing name keeps failing there.
proof fn lemma_chain_extend_err(fs: &Vfs, comps: Seq<Seq<char>>)
    requires
        comps.len() > 0,
        fs.dir_chain(comps.drop_last()) is Ok ==> fs.child(fs.dir_chain(comps.drop_last())->Ok_0, comps.last()) is None,
        fs.dir_chain(comps.drop_last()) is Err ==> fs.dir_chain(comps.drop_last()) matches Err((_, false)),
    ensures
        fs.dir_chain(comps) matches Err((_, false)),
{
}

} // verus!
