//! Building the file system at boot from the archive loaded with the kernel.

use vstd::prelude::*;
use vstd::string::StrSliceExecFns;
use crate::names::str_eq;
use crate::tar::{header_filename, parse_octal_spec, size_field, TarError, TarHeader, TarInitrd, BLOCK_SIZE};
use crate::vfs::{lemma_extends_walk, DeviceKind, FileData, FileError, InodeKind, Vfs, WalkError};
use crate::path::nonempty_components;

verus! {

/// Why the archive could not be turned into a file system.
#[derive(Debug)]
pub enum InitrdError {
    /// A header could not be read.
    Archive(TarError),
    /// A name that is empty or does not start with a one-byte character.
    BadName,
    /// An entry that is neither a regular file nor a directory.
    UnsupportedType(u8),
    /// The entry could not be placed in the tree.
    Fs(FileError),
}

/// The path of an archive entry: its name without the leading character
/// (the `.` of `./bin/init`).
pub open spec fn entry_path<'a>(h: TarHeader<'a>) -> Seq<char> {
    header_filename(h.bytes())->Ok_0.drop_first()
}

/// The data of an archive entry.
pub open spec fn entry_content(b: Seq<u8>) -> Seq<u8> {
    match parse_octal_spec(size_field(b)) {
        Some(size) => b.subrange(BLOCK_SIZE as int, BLOCK_SIZE + size),
        None => Seq::empty(),
    }
}

/// Node `n` of `fs` is what the entry `h` describes.
pub open spec fn node_matches<'a>(fs: &Vfs, n: int, h: TarHeader<'a>) -> bool {
    let t = h.bytes()[156];
    if t == 0x30 || t == 0 {
        fs.nodes()[n].kind matches InodeKind::File { data: FileData::Initrd(v) } && v@ == entry_content(h.bytes())
    } else {
        t == 0x35 && fs.is_dir(n)
    }
}

/// `root` is the path of the root directory.
pub open spec fn is_root_path(p: Seq<char>) -> bool {
    p == seq!['/']
}

/// An archive entry that the boot can take: a readable name that starts
/// with a one-byte character, and, unless it names the root, a regular file
/// whose data lies in the archive or a directory.
pub open spec fn entry_ok<'a>(h: TarHeader<'a>) -> bool {
    &&& header_filename(h.bytes()) is Ok
    &&& header_filename(h.bytes())->Ok_0.len() > 0
    &&& (header_filename(h.bytes())->Ok_0[0] as u32) < 0x80
    &&& !is_root_path(entry_path(h)) ==> {
        let t = h.bytes()[156];
        ||| t == 0x35
        ||| (t == 0x30 || t == 0) && (parse_octal_spec(size_field(h.bytes())) matches Some(size) && BLOCK_SIZE + size
            <= h.bytes().len())
    }
}

/// The file system holding the archive's entries, each at its path, and
/// `/dev/stdout`.
pub fn fs_create_root_node<'a>(tar_initrd: &TarInitrd<'a>) -> (r: Result<Vfs, InitrdError>)
    requires
        forall|i: int| 0 <= i < tar_initrd.header_seq().len() ==> (#[trigger] tar_initrd.header_seq()[i]).wf(),
    ensures
        (exists|i: int| 0 <= i < tar_initrd.header_seq().len() && !entry_ok(#[trigger] tar_initrd.header_seq()[i]))
            ==> r is Err,
        (r matches Err(e) && !(e is Fs)) ==> exists|i: int|
            0 <= i < tar_initrd.header_seq().len() && !entry_ok(#[trigger] tar_initrd.header_seq()[i]),
        r matches Ok(fs) ==> {
            &&& fs.wf()
            &&& forall|i: int|
                0 <= i < tar_initrd.header_seq().len() ==> {
                    let h = #[trigger] tar_initrd.header_seq()[i];
                    &&& header_filename(h.bytes()) is Ok
                    &&& !is_root_path(entry_path(h)) ==> (fs.resolve_path(entry_path(h)) matches Ok(n)
                        && node_matches(&fs, n, h))
                }
            &&& fs.resolve_path("/dev/stdout"@) matches Ok(n) && fs.nodes()[n].kind == (InodeKind::Device {
                device: DeviceKind::Stdout,
            })
        },
{
    let mut fs = Vfs::new();
    let mut i: usize = 0;
    let ghost mut ns: Seq<int> = Seq::empty();
    let root = "/";
    proof {
        reveal_strlit("/");
    }
    while i < tar_initrd.header_count()
        invariant
            fs.wf(),
            root@ == seq!['/'],
            i <= tar_initrd.header_seq().len(),
            ns.len() == i,
            forall|k: int| 0 <= k < tar_initrd.header_seq().len() ==> (#[trigger] tar_initrd.header_seq()[k]).wf(),
            forall|j: int| 0 <= j < i ==> entry_ok(#[trigger] tar_initrd.header_seq()[j]),
            forall|j: int|
                0 <= j < i ==> {
                    let h = #[trigger] tar_initrd.header_seq()[j];
                    &&& header_filename(h.bytes()) is Ok
                    &&& !is_root_path(entry_path(h)) ==> (fs.resolve_path(entry_path(h)) == Ok::<int, WalkError>(ns[j])
                        && 0 <= ns[j] < fs.nodes().len() && node_matches(&fs, ns[j], h))
                },
        decreases tar_initrd.header_seq().len() - i,
    {
        let h = tar_initrd.header(i);
        let name = match h.get_filename() {
            Ok(s) => s,
            Err(e) => return Err(InitrdError::Archive(e)),
        };
        let nstr = name.as_str();
        let len = nstr.unicode_len();
        if len == 0 || (nstr.get_char(0) as u32) >= 0x80u32 {
            return Err(InitrdError::BadName);
        }
        let path = nstr.substring_char(1, len);
        proof {
            assert(path@ =~= name@.drop_first());
        }
        let ghost before = fs;
        if !str_eq(path, root) {
            let t = h.get_typeflag();
            let node = if t == 0x30u8 || t == 0u8 {
                let c = match h.content() {
                    Ok(c) => c,
                    Err(e) => return Err(InitrdError::Archive(e)),
                };
                let data = vstd::slice::slice_to_vec(c);
                fs.new_initrd_file(data)
            } else if t == 0x35u8 {
                fs.new_dir()
            } else {
                return Err(InitrdError::UnsupportedType(t));
            };
            let ghost mid = fs;
            match fs.add_inode_to_vfs_tree(path, node, true) {
                Ok(()) => {},
                Err(e) => return Err(InitrdError::Fs(e)),
            }
            proof {
                assert(fs.resolve_path(path@) == Ok::<int, WalkError>(node as int));
                assert forall|j: int| 0 <= j < i implies {
                    let hj = #[trigger] tar_initrd.header_seq()[j];
                    &&& header_filename(hj.bytes()) is Ok
                    &&& !is_root_path(entry_path(hj)) ==> (fs.resolve_path(entry_path(hj)) == Ok::<int, WalkError>(
                        ns[j],
                    ) && 0 <= ns[j] < fs.nodes().len() && node_matches(&fs, ns[j], hj))
                } by {
                    let hj = tar_initrd.header_seq()[j];
                    if !is_root_path(entry_path(hj)) {
                        lemma_extends_walk(&before, &mid, 0, nonempty_components(entry_path(hj)));
                        lemma_extends_walk(&mid, &fs, 0, nonempty_components(entry_path(hj)));
                        assert(mid.is_dir(ns[j]) == before.is_dir(ns[j]));
                        assert(fs.is_dir(ns[j]) == mid.is_dir(ns[j]));
                        if !before.is_dir(ns[j]) {
                            assert(mid.nodes()[ns[j]] == before.nodes()[ns[j]]);
                            assert(fs.nodes()[ns[j]] == mid.nodes()[ns[j]]);
                        }
                    }
                }
                if !mid.is_dir(node as int) {
                    assert(fs.nodes()[node as int] == mid.nodes()[node as int]);
                }
                ns = ns.push(node as int);
            }
        } else {
            proof {
                ns = ns.push(0);
            }
        }
        i = i + 1;
    }
    let ghost s0 = fs;
    let dev = fs.new_dir();
    match fs.add_inode_to_vfs_tree("/dev", dev, false) {
        Ok(()) => {},
        Err(e) => return Err(InitrdError::Fs(e)),
    }
    let ghost s1 = fs;
    let stdout = fs.new_device(DeviceKind::Stdout);
    let ghost s2 = fs;
    match fs.add_inode_to_vfs_tree("/dev/stdout", stdout, false) {
        Ok(()) => {},
        Err(e) => return Err(InitrdError::Fs(e)),
    }
    proof {
        assert(fs.resolve_path("/dev/stdout"@) == Ok::<int, WalkError>(stdout as int));
        assert(!s2.is_dir(stdout as int));
        assert(fs.nodes()[stdout as int] == s2.nodes()[stdout as int]);
        assert forall|j: int| 0 <= j < tar_initrd.header_seq().len() implies {
            let hj = #[trigger] tar_initrd.header_seq()[j];
            &&& header_filename(hj.bytes()) is Ok
            &&& !is_root_path(entry_path(hj)) ==> (fs.resolve_path(entry_path(hj)) matches Ok(n) && node_matches(
                &fs,
                n,
                hj,
            ))
        } by {
            let hj = tar_initrd.header_seq()[j];
            if !is_root_path(entry_path(hj)) {
                let cs = nonempty_components(entry_path(hj));
                lemma_extends_walk(&s0, &s1, 0, cs);
                lemma_extends_walk(&s1, &s2, 0, cs);
                lemma_extends_walk(&s2, &fs, 0, cs);
                let n = ns[j];
                assert(s1.is_dir(n) == s0.is_dir(n));
                assert(s2.is_dir(n) == s1.is_dir(n));
                assert(fs.is_dir(n) == s2.is_dir(n));
                if !s0.is_dir(n) {
                    assert(s1.nodes()[n] == s0.nodes()[n]);
                    assert(s2.nodes()[n] == s1.nodes()[n]);
                    assert(fs.nodes()[n] == s2.nodes()[n]);
                }
            }
        }
    }
    Ok(fs)
}

} // verus!
