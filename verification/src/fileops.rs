//! The file operations a process asks for by system call: open, close, read,
//! write, list a directory, status. A descriptor names a slot of the
//! process's table by its index.

use vstd::prelude::*;
use crate::abi::{Fd, Stat};
use crate::device::{device_read_outcome, device_write_outcome, Devices};
use crate::path::{canonical_path, canonicalize_path, nonempty_components};
use crate::process::{FdSlot, OpenedFile, Process};
use crate::vfs::{
    dirent_describes, dirent_kind, lists_entries, file_bytes, lemma_missing_walk_chain, lemma_same_prefix_chain,
    lemma_walk_in_range, listed_count, read_count, read_into, spliced, stat_of, FileData, FileError, InodeKind,
    Vfs, WalkError,
};
use crate::vga::no_home;

verus! {

/// The file open in `slot`, if any, names one of the first `n` nodes.
pub open spec fn slot_valid(slot: FdSlot, n: int) -> bool {
    match slot.opened_file {
        Some(f) => f.inode < n,
        None => true,
    }
}

/// Every open file of `p` names a node of `fs`.
pub open spec fn fds_valid(p: &Process, fs: &Vfs) -> bool {
    forall|i: int| 0 <= i < p.fd_list@.len() ==> slot_valid(#[trigger] p.fd_list@[i], fs.nodes().len() as int)
}

/// The file open at the slot `fd` names.
pub open spec fn fd_file(p: &Process, fd: Fd) -> Option<OpenedFile> {
    if fd.spec_idx() < p.fd_list@.len() {
        p.fd_list@[fd.spec_idx() as int].opened_file
    } else {
        None
    }
}

/// `p` with the file at the slot `fd` names moved to `offset`.
pub open spec fn with_offset(p: &Process, q: &Process, fd: Fd, offset: usize) -> bool {
    let i = fd.spec_idx() as int;
    let f = p.fd_list@[i].opened_file->Some_0;
    &&& q.fd_list@ == p.fd_list@.update(
        i,
        FdSlot { opened_file: Some(OpenedFile { offset, ..f }), ..p.fd_list@[i] },
    )
    &&& q.free_fd_nb == p.free_fd_nb
    &&& q.pid == p.pid
    &&& q.cwd_path == p.cwd_path
    &&& q.state == p.state
}

/// What opening the absolute path `path` did to `old` and gave back.
pub open spec fn open_outcome(
    old: &Vfs,
    new: &Vfs,
    path: Seq<char>,
    readable: bool,
    writable: bool,
    create_file: bool,
    r: Result<OpenedFile, FileError>,
) -> bool {
    match old.resolve_path(path) {
        Ok(n) => {
            &&& r == Ok::<OpenedFile, FileError>(OpenedFile { inode: n as usize, offset: 0, readable, writable })
            &&& *new == *old
        },
        Err(WalkError::NotDir(c)) => {
            &&& r matches Err(FileError::DirExpected { file_should_be_dir: Some(c2), path: p }) && c2@ == c && p@
                == path
            &&& *new == *old
        },
        Err(WalkError::Missing) => if !create_file {
            &&& r matches Err(FileError::FileNotFound { path: p }) && p@ == path
            &&& *new == *old
        } else {
            let comps = nonempty_components(path);
            let parents = comps.drop_last();
            &&& new.wf()
            &&& new.extends(old)
            &&& new.nodes().len() == old.nodes().len() + 1
            &&& match old.dir_chain(parents) {
                Ok(_) => {
                    &&& r matches Ok(f) && f == (OpenedFile {
                        inode: old.nodes().len() as usize,
                        offset: 0,
                        readable,
                        writable,
                    })
                    &&& new.resolve_path(path) == Ok::<int, WalkError>(old.nodes().len() as int)
                    &&& new.nodes()[old.nodes().len() as int].kind matches InodeKind::File {
                        data: FileData::Memory(v),
                    } && v@.len() == 0
                },
                Err((k, _)) => r matches Err(FileError::DirPathNotFound { dir_not_found: d, path: p }) && d@
                    == parents[k] && p@ == path,
            }
        },
    }
}

impl OpenedFile {
    /// Opens the absolute path `path`; a missing file is made, empty, when
    /// `create_file` holds and its directory exists.
    pub fn new(fs: &mut Vfs, path: &str, is_readable: bool, is_writable: bool, create_file: bool) -> (r: Result<
        OpenedFile,
        FileError,
    >)
        requires
            old(fs).wf(),
        ensures
            final(fs).wf(),
            final(fs).extends(old(fs)),
            open_outcome(old(fs), final(fs), path@, is_readable, is_writable, create_file, r),
            r matches Ok(f) ==> f.inode < final(fs).nodes().len(),
    {
        let ghost o = *fs;
        let inode = match fs.get_inode(path) {
            Ok(i) => i,
            Err(FileError::FileNotFound { path: err_path }) => {
                if create_file {
                    let inode = fs.new_mem_file();
                    let ghost mid = *fs;
                    proof {
                        lemma_same_prefix_chain(&o, &mid, nonempty_components(path@));
                        lemma_same_prefix_chain(&o, &mid, nonempty_components(path@).drop_last());
                        lemma_missing_walk_chain(&o, nonempty_components(path@));
                    }
                    match fs.add_inode(path, inode) {
                        Ok(()) => {},
                        Err(e) => {
                            return Err(e);
                        },
                    }
                    inode
                } else {
                    return Err(FileError::FileNotFound { path: err_path });
                }
            },
            Err(e) => return Err(e),
        };
        proof {
            if o.resolve_path(path@) is Ok {
                lemma_walk_in_range(&o, 0, nonempty_components(path@));
            }
        }
        Ok(OpenedFile { inode, offset: 0, readable: is_readable, writable: is_writable })
    }
}

#[verifier::spinoff_prover]
#[verifier::rlimit(50)]
/// Opens `path`, seen from the working directory of `process`, and gives
/// the process a descriptor for it; nothing when the path has no absolute
/// form or cannot be opened.
pub fn process_open_file(
    fs: &mut Vfs,
    process: &mut Process,
    path: &str,
    is_readable: bool,
    is_writable: bool,
    create_file: bool,
) -> (r: Option<Fd>)
    requires
        old(fs).wf(),
        old(process).fd_wf(),
        old(process).can_add_fd(),
        old(process).fd_list@.len() < 0x1_0000_0000,
        fds_valid(old(process), old(fs)),
    ensures
        final(fs).wf(),
        final(fs).extends(old(fs)),
        final(process).fd_wf(),
        fds_valid(final(process), final(fs)),
        match canonical_path(path@, old(process).cwd_path@) {
            None => r is None && *final(fs) == *old(fs) && *final(process) == *old(process),
            Some(c) => exists|res: Result<OpenedFile, FileError>|
                {
                    &&& open_outcome(old(fs), final(fs), c, is_readable, is_writable, create_file, res)
                    &&& #[trigger] res.is_ok() ==> (r matches Some(fd) && fd_file(final(process), fd) == Some(res->Ok_0))
                    &&& !res.is_ok() ==> (r is None && *final(process) == *old(process))
                },
        },
{
    let canonical = match canonicalize_path(path, process.cwd_path.as_str()) {
        Some(c) => c,
        None => return None,
    };
    let opened = match OpenedFile::new(fs, canonical.as_str(), is_readable, is_writable, create_file) {
        Ok(f) => f,
        Err(e) => {
            proof {
                let res = Err::<OpenedFile, FileError>(e);
                assert(!res.is_ok());
                assert(open_outcome(old(fs), fs, canonical@, is_readable, is_writable, create_file, res));
            }
            return None;
        },
    };
    let ghost p0 = *process;
    let fd = process.add_opened_file(opened);
    proof {
        let res = Ok::<OpenedFile, FileError>(opened);
        assert(res.is_ok());
        assert(open_outcome(old(fs), fs, canonical@, is_readable, is_writable, create_file, res));
        if p0.free_fd_nb == 0 {
            assert(process.fd_list@[p0.fd_list@.len() as int].opened_file == Some(opened));
            assert(fd.spec_idx() == p0.fd_list@.len());
        } else {
            let i = crate::process::first_free(p0.fd_list@);
            assert(fd.spec_idx() == i);
            assert(process.fd_list@[i].opened_file == Some(opened));
        }
        assert(fd_file(process, fd) == Some(opened));
        assert forall|i: int| 0 <= i < process.fd_list@.len() implies slot_valid(#[trigger] process.fd_list@[i], fs.nodes().len() as int) by {
            if i < p0.fd_list@.len() {
                if process.fd_list@[i] != p0.fd_list@[i] {
                } else {
                    assert(slot_valid(p0.fd_list@[i], old(fs).nodes().len() as int));
                }
            }
        }
    }
    Some(fd)
}

/// Closes the descriptor `fd` of `process`.
pub fn process_close_file(process: &mut Process, fd: Fd) -> (r: Option<()>)
    requires
        old(process).fd_wf(),
        old(process).free_fd_nb < usize::MAX,
    ensures
        final(process).fd_wf(),
        (r is None) == (fd.spec_idx() >= old(process).fd_list@.len()),
        r is None ==> *final(process) == *old(process),
        r is Some ==> fd_file(final(process), fd) is None,
{
    let r = process.remove_opened_file(fd);
    proof {
        if r is Some {
            lemma_trim_keeps_none(
                old(process).fd_list@.update(
                    fd.spec_idx() as int,
                    FdSlot { opened_file: None, ..old(process).fd_list@[fd.spec_idx() as int] },
                ),
                fd.spec_idx() as int,
            );
        }
    }
    r
}

proof fn lemma_trim_keeps_none(s: Seq<FdSlot>, i: int)
    requires
        0 <= i < s.len(),
        s[i].opened_file is None,
    ensures
        i < crate::process::trim_free(s).len() ==> crate::process::trim_free(s)[i].opened_file is None,
    decreases s.len(),
{
    if s.len() > 0 && s.last().opened_file is None {
        if i < s.len() - 1 {
            lemma_trim_keeps_none(s.drop_last(), i);
        } else {
            lemma_trim_len(s.drop_last());
        }
    }
}

proof fn lemma_trim_len(s: Seq<FdSlot>)
    ensures
        crate::process::trim_free(s).len() <= s.len(),
    decreases s.len(),
{
    if s.len() > 0 && s.last().opened_file is None {
        lemma_trim_len(s.drop_last());
    }
}

/// The open file at the slot `fd` names.
fn lookup_fd(process: &Process, fd: Fd) -> (r: Result<OpenedFile, FileError>)
    ensures
        match fd_file(process, fd) {
            Some(f) => r == Ok::<OpenedFile, FileError>(f),
            None => r matches Err(FileError::FdNotFound),
        },
{
    let i = fd.get_idx() as usize;
    if i >= process.fd_list.len() {
        return Err(FileError::FdNotFound);
    }
    match process.fd_list[i].opened_file {
        Some(f) => Ok(f),
        None => Err(FileError::FdNotFound),
    }
}

/// Moves the file at the slot `fd` names to `offset`.
fn set_offset(process: &mut Process, fd: Fd, offset: usize)
    requires
        fd_file(old(process), fd) is Some,
        old(process).fd_wf(),
    ensures
        with_offset(old(process), final(process), fd, offset),
        final(process).fd_wf(),
{
    let i = fd.get_idx() as usize;
    let slot = process.fd_list[i];
    let f = match slot.opened_file {
        Some(f) => f,
        None => OpenedFile { inode: 0, offset: 0, readable: false, writable: false },
    };
    let new_slot = FdSlot { opened_file: Some(OpenedFile { offset, ..f }), ..slot };
    proof {
        crate::process::lemma_none_count_update(process.fd_list@, i as int, new_slot);
    }
    process.fd_list.set(i, new_slot);
}

/// Lists entries of the directory open at `fd` into `out`, from where the
/// last listing stopped, and moves past them.
pub fn process_get_dir_children(fs: &Vfs, process: &mut Process, fd: Fd, out: &mut [crate::abi::DirChild]) -> (r:
    Result<usize, FileError>)
    requires
        fs.wf(),
        old(process).fd_wf(),
        fds_valid(old(process), fs),
    ensures
        final(process).fd_wf(),
        fds_valid(final(process), fs),
        match fd_file(old(process), fd) {
            None => r matches Err(FileError::FdNotFound) && *final(process) == *old(process) && final(out)@ == old(
                out,
            )@,
            Some(f) => if !f.readable {
                r matches Err(FileError::NotReadableFile) && *final(process) == *old(process) && final(out)@
                    == old(out)@
            } else if !fs.is_dir(f.inode as int) {
                r matches Err(FileError::DirExpected { file_should_be_dir: None, path: p }) && p@.len() == 0
                    && *final(process) == *old(process) && final(out)@ == old(out)@
            } else {
                let es = fs.entries(f.inode as int);
                let w = listed_count(es.len() as int, f.offset as int, old(out)@.len() as int);
                &&& r == Ok::<usize, FileError>(w as usize)
                &&& final(out)@.len() == old(out)@.len()
                &&& lists_entries(fs, es, f.offset as int, final(out)@, w)
                &&& forall|i: int| w <= i < final(out)@.len() ==> #[trigger] final(out)@[i] == old(out)@[i]
                &&& with_offset(old(process), final(process), fd, f.offset.wrapping_add(w as usize))
            },
        },
{
    let f = match lookup_fd(process, fd) {
        Ok(f) => f,
        Err(e) => return Err(e),
    };
    if !f.readable {
        return Err(FileError::NotReadableFile);
    }
    proof {
        assert(old(process).fd_list@[fd.spec_idx() as int].opened_file == Some(f));
    }
    let n = match fs.read_dir_children(f.inode, f.offset, out) {
        Ok(n) => n,
        Err(e) => return Err(e),
    };
    set_offset(process, fd, f.offset.wrapping_add(n));
    proof {
        lemma_offset_keeps_valid(old(process), process, fs, fd, f.offset.wrapping_add(n));
    }
    Ok(n)
}

proof fn lemma_offset_keeps_valid(p: &Process, q: &Process, fs: &Vfs, fd: Fd, offset: usize)
    requires
        fds_valid(p, fs),
        fd_file(p, fd) is Some,
        with_offset(p, q, fd, offset),
    ensures
        fds_valid(q, fs),
{
    assert forall|i: int| 0 <= i < q.fd_list@.len() implies slot_valid(#[trigger] q.fd_list@[i], fs.nodes().len() as int) by {
        assert(slot_valid(p.fd_list@[i], fs.nodes().len() as int));
    }
}

/// The status of the file open at `fd`.
pub fn process_fstat(fs: &Vfs, process: &Process, fd: Fd) -> (r: Result<Stat, FileError>)
    requires
        fds_valid(process, fs),
    ensures
        match fd_file(process, fd) {
            None => r matches Err(FileError::FdNotFound),
            Some(f) => r == Ok::<Stat, FileError>(stat_of(fs.nodes()[f.inode as int].kind)),
        },
{
    let f = match lookup_fd(process, fd) {
        Ok(f) => f,
        Err(e) => return Err(e),
    };
    proof {
        assert(process.fd_list@[fd.spec_idx() as int].opened_file == Some(f));
    }
    fs.file_stat_inode(f.inode)
}

/// Reads from the file open at `fd` into `buf`, at its position, and moves
/// the position past what was read.
pub fn process_read(fs: &Vfs, process: &mut Process, fd: Fd, buf: &mut [u8], devices: &mut Devices) -> (r: Result<
    usize,
    FileError,
>)
    requires
        old(process).fd_wf(),
        fds_valid(old(process), fs),
        old(devices).wf(),
    ensures
        final(process).fd_wf(),
        fds_valid(final(process), fs),
        final(devices).wf(),
        match fd_file(old(process), fd) {
            None => r matches Err(FileError::FdNotFound) && *final(process) == *old(process) && final(buf)@ == old(
                buf,
            )@ && *final(devices) == *old(devices),
            Some(f) => if !f.readable {
                r matches Err(FileError::NotReadableFile) && *final(process) == *old(process) && final(buf)@
                    == old(buf)@ && *final(devices) == *old(devices)
            } else {
                &&& match fs.nodes()[f.inode as int].kind {
                    InodeKind::File { data } => {
                        &&& r == Ok::<usize, FileError>(
                            read_count(file_bytes(data), f.offset as int, old(buf)@.len() as int) as usize,
                        )
                        &&& read_into(file_bytes(data), f.offset as int, old(buf)@, final(buf)@)
                        &&& *final(devices) == *old(devices)
                    },
                    InodeKind::Directory { .. } => {
                        &&& r matches Err(FileError::FileExpected { path: p }) && p@.len() == 0
                        &&& final(buf)@ == old(buf)@
                        &&& *final(devices) == *old(devices)
                    },
                    InodeKind::Device { device } => device_read_outcome(
                        device,
                        *old(devices),
                        *final(devices),
                        old(buf)@,
                        final(buf)@,
                        r,
                    ),
                }
                &&& r matches Ok(n) ==> with_offset(old(process), final(process), fd, f.offset.wrapping_add(n))
                &&& r is Err ==> *final(process) == *old(process)
            },
        },
{
    let f = match lookup_fd(process, fd) {
        Ok(f) => f,
        Err(e) => return Err(e),
    };
    if !f.readable {
        return Err(FileError::NotReadableFile);
    }
    proof {
        assert(old(process).fd_list@[fd.spec_idx() as int].opened_file == Some(f));
    }
    let n = match fs.read_at(f.inode, f.offset, buf, devices) {
        Ok(n) => n,
        Err(e) => return Err(e),
    };
    set_offset(process, fd, f.offset.wrapping_add(n));
    proof {
        lemma_offset_keeps_valid(old(process), process, fs, fd, f.offset.wrapping_add(n));
    }
    Ok(n)
}

/// Writes `buf` to the file open at `fd`, at its position, and moves the
/// position past what was written.
pub fn process_write(fs: &mut Vfs, process: &mut Process, fd: Fd, buf: &[u8], devices: &mut Devices) -> (r: Result<
    usize,
    FileError,
>)
    requires
        old(fs).wf(),
        old(process).fd_wf(),
        fds_valid(old(process), old(fs)),
        old(devices).wf(),
        no_home(old(devices).console@, buf@),
    ensures
        final(fs).wf(),
        final(process).fd_wf(),
        fds_valid(final(process), final(fs)),
        final(devices).wf(),
        final(fs).nodes().len() == old(fs).nodes().len(),
        match fd_file(old(process), fd) {
            None => r matches Err(FileError::FdNotFound) && *final(process) == *old(process) && *final(fs) == *old(
                fs,
            ) && *final(devices) == *old(devices),
            Some(f) => if !f.writable {
                r matches Err(FileError::NotWritableFile) && *final(process) == *old(process) && *final(fs)
                    == *old(fs) && *final(devices) == *old(devices)
            } else {
                &&& match old(fs).nodes()[f.inode as int].kind {
                    InodeKind::File { data: FileData::Memory(v) } => {
                        &&& r == Ok::<usize, FileError>(buf@.len() as usize)
                        &&& forall|m: int| 0 <= m < old(fs).nodes().len() && m != f.inode ==> final(fs).nodes()[m]
                            == old(fs).nodes()[m]
                        &&& final(fs).nodes()[f.inode as int].kind matches InodeKind::File {
                            data: FileData::Memory(w),
                        } && w@ == spliced(v@, f.offset as int, buf@)
                        &&& *final(devices) == *old(devices)
                    },
                    InodeKind::File { data: FileData::Initrd(_) } => {
                        &&& r matches Err(FileError::NotWritableFile)
                        &&& *final(fs) == *old(fs)
                        &&& *final(devices) == *old(devices)
                    },
                    InodeKind::Directory { .. } => {
                        &&& r matches Err(FileError::FileExpected { path: p }) && p@.len() == 0
                        &&& *final(fs) == *old(fs)
                        &&& *final(devices) == *old(devices)
                    },
                    InodeKind::Device { device } => {
                        &&& *final(fs) == *old(fs)
                        &&& device_write_outcome(device, *old(devices), *final(devices), buf@, r)
                    },
                }
                &&& r matches Ok(n) ==> with_offset(old(process), final(process), fd, f.offset.wrapping_add(n))
                &&& r is Err ==> *final(process) == *old(process)
            },
        },
{
    let f = match lookup_fd(process, fd) {
        Ok(f) => f,
        Err(e) => return Err(e),
    };
    if !f.writable {
        return Err(FileError::NotWritableFile);
    }
    proof {
        assert(old(process).fd_list@[fd.spec_idx() as int].opened_file == Some(f));
    }
    let n = match fs.write_at(f.inode, f.offset, buf, devices) {
        Ok(n) => n,
        Err(e) => return Err(e),
    };
    set_offset(process, fd, f.offset.wrapping_add(n));
    proof {
        assert forall|i: int| 0 <= i < old(process).fd_list@.len() implies slot_valid(#[trigger] old(process).fd_list@[i], fs.nodes().len() as int) by {
            assert(slot_valid(old(process).fd_list@[i], old(fs).nodes().len() as int));
        }
        lemma_offset_keeps_valid(old(process), process, fs, fd, f.offset.wrapping_add(n));
    }
    Ok(n)
}

/// The slot of a descriptor handed out for the first time.
pub open spec fn fresh_slot(f: OpenedFile) -> FdSlot {
    FdSlot { generation: 1, opened_file: Some(f) }
}

/// The descriptors of the standard devices at nodes `o`, `e` and `i`:
/// output and error open for writing, input open for reading.
pub open spec fn standard_fds(o: int, e: int, i: int) -> Seq<FdSlot> {
    seq![
        fresh_slot(OpenedFile { inode: o as usize, offset: 0, readable: false, writable: true }),
        fresh_slot(OpenedFile { inode: e as usize, offset: 0, readable: false, writable: true }),
        fresh_slot(OpenedFile { inode: i as usize, offset: 0, readable: true, writable: false }),
    ]
}

/// The three standard devices can be found.
pub open spec fn standard_devices_present(fs: &Vfs) -> bool {
    &&& fs.resolve_path("/dev/stdout"@) is Ok
    &&& fs.resolve_path("/dev/stderr"@) is Ok
    &&& fs.resolve_path("/dev/stdin"@) is Ok
}

/// The descriptors a new process starts with in `fs`.
pub open spec fn standard_fds_of(fs: &Vfs) -> Seq<FdSlot> {
    standard_fds(
        fs.resolve_path("/dev/stdout"@)->Ok_0,
        fs.resolve_path("/dev/stderr"@)->Ok_0,
        fs.resolve_path("/dev/stdin"@)->Ok_0,
    )
}

/// The descriptors a new process starts with: standard output, standard
/// error and standard input, in that order; the first device that cannot be
/// opened gives the error.
pub fn init_fd_list(fs: &mut Vfs) -> (r: Result<Vec<FdSlot>, FileError>)
    requires
        old(fs).wf(),
    ensures
        *final(fs) == *old(fs),
        ({
            let out = old(fs).resolve_path("/dev/stdout"@);
            let err = old(fs).resolve_path("/dev/stderr"@);
            let inp = old(fs).resolve_path("/dev/stdin"@);
            match (out, err, inp) {
                (Ok(o), Ok(e), Ok(i)) => r matches Ok(v) && v@ == standard_fds(o, e, i),
                _ => r is Err,
            }
        }),
{
    let stdout = match OpenedFile::new(fs, "/dev/stdout", false, true, false) {
        Ok(f) => f,
        Err(e) => return Err(e),
    };
    let stderr = match OpenedFile::new(fs, "/dev/stderr", false, true, false) {
        Ok(f) => f,
        Err(e) => return Err(e),
    };
    let stdin = match OpenedFile::new(fs, "/dev/stdin", true, false, false) {
        Ok(f) => f,
        Err(e) => return Err(e),
    };
    let v = vec![
        FdSlot { generation: 1, opened_file: Some(stdout) },
        FdSlot { generation: 1, opened_file: Some(stderr) },
        FdSlot { generation: 1, opened_file: Some(stdin) },
    ];
    assert(v@ =~= seq![fresh_slot(stdout), fresh_slot(stderr), fresh_slot(stdin)]);
    Ok(v)
}

} // verus!
