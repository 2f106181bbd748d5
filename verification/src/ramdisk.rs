//! Read-only ramdisk: serves a fixed set of files by inode number.
//!
//! Inode 0 is the root directory and enumerates every file; file `i` of the
//! construction list gets inode `i + 1`. Writes fail with `WrongType`; reads
//! return `min(count, size - offset)` bytes.

use vstd::prelude::*;

use crate::vfs::clone_bytes;
use crate::vfs::clone_dirents;
use crate::vfs::DirectoryEntry;
use crate::vfs::FileType;
use crate::vfs::Filesystem;
use crate::vfs::FilesystemError;
use crate::vfs::Inode;
use std::collections::BTreeMap;

verus! {

broadcast use vstd::laws_cmp::group_laws_cmp;

/// The bytes a read of `count` bytes at `offset` yields from `data`:
/// the slice up to the end of the file, empty once `offset` passes it.
pub open spec fn read_span(data: Seq<u8>, offset: u64, count: usize) -> Seq<u8> {
    if offset >= data.len() {
        Seq::empty()
    } else if offset + count >= data.len() {
        data.subrange(offset as int, data.len() as int)
    } else {
        data.subrange(offset as int, offset + count)
    }
}

/// Copies `read_span(data, offset, count)` out of `data`.
pub fn copy_span(data: &Vec<u8>, offset: u64, count: usize) -> (r: Vec<u8>)
    ensures
        r@ == read_span(data@, offset, count),
{
    let len: usize = data.len();
    if offset >= len as u64 {
        return Vec::new();
    }
    let start: usize = offset as usize;
    let end: usize = if count >= len - start {
        len
    } else {
        start + count
    };
    let mut r: Vec<u8> = Vec::new();
    let mut i: usize = start;
    while i < end
        invariant
            start <= i <= end <= data@.len(),
            r@ == data@.subrange(start as int, i as int),
        decreases end - i,
    {
        r.push(data[i]);
        proof {
            assert(r@ =~= data@.subrange(start as int, i + 1));
        }
        i = i + 1;
    }
    proof {
        assert(r@ =~= read_span(data@, offset, count));
    }
    r
}


/// An octal ASCII digit.
pub open spec fn is_octal_digit(b: u8) -> bool {
    48 <= b <= 55
}

/// Value of an octal ASCII digit string, most significant first.
pub open spec fn octal_value(s: Seq<u8>) -> int
    decreases s.len(),
{
    if s.len() == 0 {
        0
    } else {
        octal_value(s.drop_last()) * 8 + (s.last() - 48)
    }
}

/// Index of the first NUL in `s`, or `s.len()` when there is none.
pub open spec fn first_nul(s: Seq<u8>) -> int
    decreases s.len(),
{
    if s.len() == 0 {
        0
    } else if s[0] == 0 {
        0
    } else {
        1 + first_nul(s.drop_first())
    }
}

pub proof fn lemma_first_nul(s: Seq<u8>)
    ensures
        0 <= first_nul(s) <= s.len(),
        first_nul(s) < s.len() ==> s[first_nul(s)] == 0,
        forall|j: int| 0 <= j < first_nul(s) ==> s[j] != 0,
    decreases s.len(),
{
    if s.len() > 0 && s[0] != 0 {
        lemma_first_nul(s.drop_first());
        assert forall|j: int| 0 <= j < first_nul(s) implies s[j] != 0 by {
            if j > 0 {
                assert(s.drop_first()[j - 1] != 0);
            }
        }
    }
}

/// The bytes before the first NUL.
pub open spec fn cstr_of(s: Seq<u8>) -> Seq<u8> {
    s.take(first_nul(s))
}

/// Every leading `./` removed, as `str::trim_start_matches` does.
pub open spec fn trim_dot_slash(s: Seq<u8>) -> Seq<u8>
    decreases s.len(),
{
    if s.len() >= 2 && s[0] == 46 && s[1] == 47 {
        trim_dot_slash(s.skip(2))
    } else {
        s
    }
}

/// The NUL-terminated filename bytes of the header at `off`, with leading
/// `./` removed.
pub open spec fn tar_name(a: Seq<u8>, off: int) -> Seq<u8> {
    trim_dot_slash(cstr_of(a.subrange(off, off + 100)))
}

/// The octal size field of the header at `off` (bytes 124..136).
pub open spec fn tar_size_field(a: Seq<u8>, off: int) -> Seq<u8> {
    cstr_of(a.subrange(off + 124, off + 136))
}

pub open spec fn tar_entry_size(a: Seq<u8>, off: int) -> int {
    octal_value(tar_size_field(a, off))
}

/// Where the next header starts: the file data rounded up to whole
/// 512-byte blocks, after the 512-byte header itself.
pub open spec fn tar_next(a: Seq<u8>, off: int) -> int {
    off + (tar_entry_size(a, off) + 511) / 512 * 512 + 512
}

/// The header at `off` is sound: it fits, the filename is NUL-terminated
/// ASCII, and the size field is a NUL-terminated nonempty octal string.
pub open spec fn tar_header_ok(a: Seq<u8>, off: int) -> bool {
    let name = cstr_of(a.subrange(off, off + 100));
    let szf = tar_size_field(a, off);
    &&& off + 512 <= a.len()
    &&& first_nul(a.subrange(off, off + 100)) < 100
    &&& forall|i: int| 0 <= i < name.len() ==> (#[trigger] name[i]) < 128
    &&& first_nul(a.subrange(off + 124, off + 136)) < 12
    &&& szf.len() > 0
    &&& forall|i: int| 0 <= i < szf.len() ==> is_octal_digit(#[trigger] szf[i])
}

/// A well-formed ustar stream from `off` on: either the terminating
/// zero-filled block starts here, or a sound header whose data fits is
/// followed by another well-formed stream.
pub open spec fn tar_wf(a: Seq<u8>, off: int) -> bool
    decreases a.len() - off,
    when 0 <= off
{
    if !(0 <= off < a.len()) {
        false
    } else if a[off] == 0 {
        true
    } else if !tar_header_ok(a, off) {
        false
    } else if !(off < tar_next(a, off) <= a.len()) {
        false
    } else {
        tar_wf(a, tar_next(a, off))
    }
}

/// The (name, contents) pairs of the archive from `off` on; entries of
/// size zero are skipped.
pub open spec fn tar_files(a: Seq<u8>, off: int) -> Seq<(Seq<u8>, Seq<u8>)>
    decreases a.len() - off,
    when 0 <= off
{
    if !(0 <= off < a.len()) || a[off] == 0 || !tar_header_ok(a, off) || !(off < tar_next(a, off)
        <= a.len()) {
        Seq::empty()
    } else {
        let sz = tar_entry_size(a, off);
        let rest = tar_files(a, tar_next(a, off));
        if sz > 0 {
            seq![(tar_name(a, off), a.subrange(off + 512, off + 512 + sz))] + rest
        } else {
            rest
        }
    }
}

/// Relies on alloc::string::String::from_utf8: ASCII bytes are valid UTF-8
/// and decode to the characters with the same values.
#[verifier::external_body]
pub(crate) fn ascii_to_string(bytes: Vec<u8>) -> (r: String)
    requires
        forall|i: int| 0 <= i < bytes@.len() ==> bytes@[i] < 128,
    ensures
        r@ == bytes@.map_values(|b: u8| b as char),
{
    match String::from_utf8(bytes) {
        Ok(s) => s,
        Err(_) => String::new(),
    }
}

/// Reads the NUL-terminated bytes starting at `base`, looking at most
/// `width` bytes ahead.
fn read_cstr(archive: &Vec<u8>, base: usize, width: usize) -> (r: Vec<u8>)
    requires
        base + width <= archive@.len(),
        first_nul(archive@.subrange(base as int, base + width)) < width,
    ensures
        r@ == cstr_of(archive@.subrange(base as int, base + width)),
{
    let ghost field = archive@.subrange(base as int, base + width);
    proof {
        lemma_first_nul(field);
    }
    let n: usize = archive.len();
    let mut r: Vec<u8> = Vec::new();
    let mut i: usize = 0;
    while archive[base + i] != 0
        invariant
            n == archive@.len(),
            base + width <= archive@.len(),
            field == archive@.subrange(base as int, base + width),
            0 <= i <= first_nul(field) < width,
            r@ == field.take(i as int),
            forall|j: int| 0 <= j < first_nul(field) ==> field[j] != 0,
            first_nul(field) < field.len() ==> field[first_nul(field)] == 0,
        decreases first_nul(field) - i,
    {
        proof {
            assert(field[i as int] == archive@[base + i]);
            assert(field[i as int] != 0);
            assert(i < first_nul(field)) by {
                if i > first_nul(field) {
                }
                assert(field[first_nul(field)] == 0);
            }
        }
        r.push(archive[base + i]);
        proof {
            assert(r@ =~= field.take(i + 1));
        }
        i = i + 1;
        proof {
            assert(field[i as int] == archive@[base + i]);
        }
    }
    proof {
        assert(field[i as int] == archive@[base + i]);
        assert(i == first_nul(field)) by {
            if i < first_nul(field) {
                assert(field[i as int] != 0);
            }
        }
    }
    r
}

/// Parses a ustar archive into its (filename, contents) list: one entry
/// per file of non-zero size, in archive order, names decoded from ASCII
/// with leading `./` removed.
pub fn parse_tar(archive: &Vec<u8>) -> (files: Vec<(String, Vec<u8>)>)
    requires
        tar_wf(archive@, 0),
    ensures
        files@.len() == tar_files(archive@, 0).len(),
        forall|i: int|
            0 <= i < files@.len() ==> {
                &&& (#[trigger] files@[i]).0@ == tar_files(archive@, 0)[i].0.map_values(
                    |b: u8| b as char,
                )
                &&& files@[i].1@ == tar_files(archive@, 0)[i].1
            },
{
    let ghost a = archive@;
    let alen: usize = archive.len();
    let mut files: Vec<(String, Vec<u8>)> = Vec::new();
    let mut offset: usize = 0;
    let ghost mut done: Seq<(Seq<u8>, Seq<u8>)> = Seq::empty();
    proof {
        assert(Seq::<(Seq<u8>, Seq<u8>)>::empty() + tar_files(a, 0) =~= tar_files(a, 0));
    }
    while archive[offset] != 0
        invariant
            a == archive@,
            alen == a.len(),
            tar_wf(a, offset as int),
            tar_files(a, 0) == done + tar_files(a, offset as int),
            done.len() == files@.len(),
            forall|i: int|
                0 <= i < files@.len() ==> {
                    &&& (#[trigger] files@[i]).0@ == done[i].0.map_values(|b: u8| b as char)
                    &&& files@[i].1@ == done[i].1
                },
        decreases a.len() - offset,
    {
        let ghost off = offset as int;
        // the header is sound: read the filename and the size
        let name_raw = read_cstr(archive, offset, 100);
        let size_field = read_cstr(archive, offset + 124, 12);
        let ghost szf = tar_size_field(a, off);
        proof {
            assert(size_field@ == szf);
            lemma_first_nul(a.subrange(off + 124, off + 136));
            assert(szf.len() < 12);
        }
        // octal size
        let mut size: u64 = 0;
        let mut i: usize = 0;
        while i < size_field.len()
            invariant
                size_field@ == szf,
                szf.len() < 12,
                forall|j: int| 0 <= j < szf.len() ==> is_octal_digit(#[trigger] szf[j]),
                0 <= i <= szf.len(),
                size == octal_value(szf.take(i as int)),
                size < 0x8000_0000_0000u64,
            decreases szf.len() - i,
        {
            proof {
                assert(szf.take(i + 1).drop_last() =~= szf.take(i as int));
                assert(szf.take(i + 1).last() == szf[i as int]);
                assert(is_octal_digit(szf[i as int]));
                lemma_octal_bound(szf.take(i + 1));
            }
            size = size * 8 + ((size_field[i] - 48) as u64);
            i = i + 1;
        }
        proof {
            assert(szf.take(szf.len() as int) =~= szf);
            assert(size == tar_entry_size(a, off));
        }
        // contents
        proof {
            let s = size as int;
            assert((s + 511) / 512 * 512 >= s) by (nonlinear_arith)
                requires s >= 0;
            assert(off + 512 + size <= tar_next(a, off));
            assert(tar_next(a, off) <= a.len());
        }
        let data: Vec<u8> = if size > 0 {
            copy_range(archive, offset + 512, size as usize)
        } else {
            Vec::new()
        };
        // filename, leading "./" removed
        let mut start: usize = 0;
        let ghost raw = cstr_of(a.subrange(off, off + 100));
        proof {
            assert(name_raw@ == raw);
            assert(raw.skip(0) =~= raw);
            lemma_first_nul(a.subrange(off, off + 100));
            assert(raw.len() <= 100);
        }
        while start + 1 < name_raw.len() && name_raw[start] == 46 && name_raw[start + 1] == 47
            invariant
                name_raw@ == raw,
                raw.len() <= 100,
                0 <= start <= raw.len(),
                trim_dot_slash(raw) == trim_dot_slash(raw.skip(start as int)),
            decreases raw.len() - start,
        {
            proof {
                assert(raw.skip(start as int)[0] == raw[start as int]);
                assert(raw.skip(start as int)[1] == raw[start + 1]);
                assert(raw.skip(start as int).skip(2) =~= raw.skip(start + 2));
            }
            start = start + 2;
        }
        proof {
            let tail = raw.skip(start as int);
            if tail.len() >= 2 {
                assert(tail[0] == raw[start as int]);
                assert(tail[1] == raw[start + 1]);
            }
            assert(trim_dot_slash(tail) == tail);
        }
        let mut name_bytes: Vec<u8> = Vec::new();
        let mut k: usize = start;
        while k < name_raw.len()
            invariant
                name_raw@ == raw,
                start <= k <= raw.len(),
                name_bytes@ == raw.subrange(start as int, k as int),
            decreases raw.len() - k,
        {
            name_bytes.push(name_raw[k]);
            proof {
                assert(name_bytes@ =~= raw.subrange(start as int, k + 1));
            }
            k = k + 1;
        }
        proof {
            assert(name_bytes@ =~= raw.skip(start as int));
            assert(name_bytes@ == tar_name(a, off));
            assert(forall|i: int| 0 <= i < raw.len() ==> (#[trigger] raw[i]) < 128);
            assert(forall|i: int|
                0 <= i < name_bytes@.len() ==> (#[trigger] name_bytes@[i]) < 128);
        }
        let name = ascii_to_string(name_bytes);
        if size > 0 {
            files.push((name, data));
            proof {
                done = done + seq![(tar_name(a, off), a.subrange(off + 512, off + 512 + size))];
            }
        }
        let next64: u64 = (offset as u64) + (size + 511) / 512 * 512 + 512;
        proof {
            assert(next64 == tar_next(a, off));
        }
        offset = next64 as usize;
        proof {
            if size > 0 {
                assert(tar_files(a, off) == seq![
                    (tar_name(a, off), a.subrange(off + 512, off + 512 + size as int)),
                ] + tar_files(a, offset as int));
                assert(done + tar_files(a, offset as int) =~= done.drop_last() + tar_files(
                    a,
                    off,
                ));
            } else {
                assert(tar_files(a, off) == tar_files(a, offset as int));
            }
        }
    }
    proof {
        assert(tar_files(a, offset as int) =~= Seq::<(Seq<u8>, Seq<u8>)>::empty());
        assert(tar_files(a, 0) =~= done);
    }
    files
}

/// An octal string of up to 11 digits stays below 2^33.
proof fn lemma_octal_bound(s: Seq<u8>)
    requires
        s.len() <= 11,
        forall|i: int| 0 <= i < s.len() ==> is_octal_digit(#[trigger] s[i]),
    ensures
        0 <= octal_value(s) < 0x8000_0000_0000,
{
    lemma_octal_bound_rec(s);
    lemma_pow8_le(s.len() as nat, 11);
    reveal_with_fuel(pow8, 12);
    assert(pow8(11) == 0x2_0000_0000);
}

proof fn lemma_octal_bound_rec(s: Seq<u8>)
    requires
        forall|i: int| 0 <= i < s.len() ==> is_octal_digit(#[trigger] s[i]),
    ensures
        0 <= octal_value(s),
        octal_value(s) < pow8(s.len() as nat),
    decreases s.len(),
{
    if s.len() > 0 {
        assert(forall|i: int|
            0 <= i < s.drop_last().len() ==> is_octal_digit(#[trigger] s.drop_last()[i]));
        lemma_octal_bound_rec(s.drop_last());
    }
}

proof fn lemma_pow8_le(n: nat, m: nat)
    requires
        n <= m,
    ensures
        pow8(n) <= pow8(m),
    decreases m,
{
    if n < m {
        lemma_pow8_le(n, (m - 1) as nat);
        assert(pow8((m - 1) as nat) >= 1) by {
            lemma_pow8_pos((m - 1) as nat);
        }
    }
}

proof fn lemma_pow8_pos(n: nat)
    ensures
        pow8(n) >= 1,
    decreases n,
{
    if n > 0 {
        lemma_pow8_pos((n - 1) as nat);
    }
}

pub open spec fn pow8(n: nat) -> int
    decreases n,
{
    if n == 0 {
        1
    } else {
        8 * pow8((n - 1) as nat)
    }
}

/// Copies `count` bytes starting at `start`.
pub(crate) fn copy_range(data: &Vec<u8>, start: usize, count: usize) -> (r: Vec<u8>)
    requires
        start + count <= data@.len(),
    ensures
        r@ == data@.subrange(start as int, start + count),
{
    let n: usize = data.len();
    let mut r: Vec<u8> = Vec::new();
    let mut i: usize = 0;
    while i < count
        invariant
            n == data@.len(),
            start + count <= data@.len(),
            0 <= i <= count,
            r@ == data@.subrange(start as int, start + i),
        decreases count - i,
    {
        r.push(data[start + i]);
        proof {
            assert(r@ =~= data@.subrange(start as int, start + i + 1));
        }
        i = i + 1;
    }
    r
}

/// Read-only tar-backed ramdisk. Only one directory level: the root lists
/// every file.
pub struct Ramdisk {
    pub dev: u32,
    inodes: BTreeMap<u32, Inode>,
    dirents: Vec<DirectoryEntry>,
    contents: BTreeMap<u32, Vec<u8>>,
}

/// Mathematical content of a ramdisk: its inode table, root listing, and
/// file contents by inode number.
pub struct RamdiskView {
    pub dev: u32,
    pub inodes: Map<u32, Inode>,
    pub dirents: Seq<DirectoryEntry>,
    pub contents: Map<u32, Seq<u8>>,
}

impl View for Ramdisk {
    type V = RamdiskView;

    closed spec fn view(&self) -> RamdiskView {
        RamdiskView {
            dev: self.dev,
            inodes: self.inodes@,
            dirents: self.dirents@,
            contents: Map::new(
                |k: u32| self.contents@.contains_key(k),
                |k: u32| self.contents@[k]@,
            ),
        }
    }
}

impl Ramdisk {
    /// The directory listing of the root inode.
    pub open spec fn entries(self) -> Seq<DirectoryEntry> {
        self@.dirents
    }

    /// The bytes of file inode `ino`.
    pub open spec fn file_bytes(self, ino: u32) -> Seq<u8> {
        self@.contents[ino]
    }

    pub open spec fn has_file(self, ino: u32) -> bool {
        self@.contents.contains_key(ino)
    }

    /// Builds a ramdisk with device id `dev` from named file contents.
    /// File `i` gets inode `i + 1`; inode 0 is the root directory listing
    /// every file under its given name.
    pub fn from_files(dev: u32, files: &Vec<(String, Vec<u8>)>) -> (r: Ramdisk)
        requires
            files@.len() < u32::MAX,
        ensures
            r.inv(),
            r@.dev == dev,
            r.entries().len() == files@.len(),
            forall|i: int|
                0 <= i < files@.len() ==> {
                    &&& (#[trigger] r.entries()[i]).name@ == files@[i].0@
                    &&& r.entries()[i].inode == i + 1
                    &&& r.entries()[i].dev == dev
                },
            forall|i: int|
                0 <= i < files@.len() ==> {
                    &&& #[trigger] r.has_file((i + 1) as u32)
                    &&& r.file_bytes((i + 1) as u32) == files@[i].1@
                },
            r.spec_inode(dev, 0) == Result::<Inode, FilesystemError>::Ok(
                Inode {
                    dev,
                    inode: 0,
                    file_type: FileType::Directory,
                    size: 0,
                    major: Option::None,
                    minor: Option::None,
                },
            ),
            forall|i: int|
                0 <= i < files@.len() ==> #[trigger] r.spec_inode(dev, (i + 1) as u32)
                    == Result::<Inode, FilesystemError>::Ok(
                    Inode {
                        dev,
                        inode: (i + 1) as u32,
                        file_type: FileType::File,
                        size: files@[i].1@.len() as usize,
                        major: Option::None,
                        minor: Option::None,
                    },
                ),
    {
        let mut inodes: BTreeMap<u32, Inode> = BTreeMap::new();
        let mut dirents: Vec<DirectoryEntry> = Vec::new();
        let mut contents: BTreeMap<u32, Vec<u8>> = BTreeMap::new();
        inodes.insert(
            0,
            Inode {
                dev,
                inode: 0,
                file_type: FileType::Directory,
                size: 0,
                major: Option::None,
                minor: Option::None,
            },
        );
        let n: usize = files.len();
        let mut i: usize = 0;
        while i < n
            invariant
                0 <= i <= n,
                n == files@.len(),
                n < u32::MAX,
                dirents@.len() == i,
                inodes@.contains_key(0),
                inodes@[0] == (Inode {
                    dev,
                    inode: 0,
                    file_type: FileType::Directory,
                    size: 0,
                    major: Option::None,
                    minor: Option::None,
                }),
                forall|k: u32|
                    inodes@.contains_key(k) ==> ((#[trigger] inodes@[k]).dev == dev
                        && inodes@[k].inode == k && 0 <= k <= i && inodes@[k].major
                        == Option::<u32>::None && inodes@[k].minor == Option::<u32>::None),
                forall|k: u32| 0 <= k <= i ==> inodes@.contains_key(k),
                forall|k: u32|
                    inodes@.contains_key(k) && k != 0 ==> {
                        &&& inodes@[k].file_type == FileType::File
                        &&& contents@.contains_key(k)
                        &&& inodes@[k].size == contents@[k]@.len()
                    },
                forall|k: u32| contents@.contains_key(k) ==> 1 <= k <= i,
                forall|j: int|
                    0 <= j < i ==> {
                        &&& (#[trigger] dirents@[j]).name@ == files@[j].0@
                        &&& dirents@[j].inode == j + 1
                        &&& dirents@[j].dev == dev
                    },
                forall|j: int|
                    0 <= j < i ==> {
                        &&& contents@.contains_key((j + 1) as u32)
                        &&& (#[trigger] contents@[(j + 1) as u32])@ == files@[j].1@
                    },
            decreases n - i,
        {
            let ino: u32 = (i + 1) as u32;
            let name: String = files[i].0.clone();
            let bytes: Vec<u8> = clone_bytes(&files[i].1);
            let size: usize = bytes.len();
            dirents.push(DirectoryEntry { name, inode: ino, dev });
            inodes.insert(
                ino,
                Inode {
                    dev,
                    inode: ino,
                    file_type: FileType::File,
                    size,
                    major: Option::None,
                    minor: Option::None,
                },
            );
            contents.insert(ino, bytes);
            i = i + 1;
        }
        let rd = Ramdisk { dev, inodes, dirents, contents };
        proof {
            assert forall|j: int| 0 <= j < files@.len() implies #[trigger] rd.spec_inode(
                dev,
                (j + 1) as u32,
            ) == Result::<Inode, FilesystemError>::Ok(
                Inode {
                    dev,
                    inode: (j + 1) as u32,
                    file_type: FileType::File,
                    size: files@[j].1@.len() as usize,
                    major: Option::None,
                    minor: Option::None,
                },
            ) by {
                let k: u32 = (j + 1) as u32;
                assert(rd@.inodes.contains_key(k));
                assert(rd@.contents[k] == files@[j].1@);
            }
        }
        rd
    }

    /// Parses a ustar archive and serves its files: file `i` of the
    /// archive (in order, zero-sized entries skipped) gets inode `i + 1`.
    pub fn from_tar(dev: u32, archive: &Vec<u8>) -> (r: Ramdisk)
        requires
            tar_wf(archive@, 0),
            tar_files(archive@, 0).len() < u32::MAX,
        ensures
            r.inv(),
            r@.dev == dev,
            r.entries().len() == tar_files(archive@, 0).len(),
            forall|i: int|
                0 <= i < tar_files(archive@, 0).len() ==> {
                    &&& (#[trigger] r.entries()[i]).name@ == tar_files(archive@, 0)[i].0.map_values(
                        |b: u8| b as char,
                    )
                    &&& r.entries()[i].inode == i + 1
                    &&& r.entries()[i].dev == dev
                },
            forall|i: int|
                0 <= i < tar_files(archive@, 0).len() ==> {
                    &&& #[trigger] r.has_file((i + 1) as u32)
                    &&& r.file_bytes((i + 1) as u32) == tar_files(archive@, 0)[i].1
                },
            r.spec_inode(dev, 0) == Result::<Inode, FilesystemError>::Ok(
                Inode {
                    dev,
                    inode: 0,
                    file_type: FileType::Directory,
                    size: 0,
                    major: Option::None,
                    minor: Option::None,
                },
            ),
    {
        let files = parse_tar(archive);
        Ramdisk::from_files(dev, &files)
    }
}

impl Filesystem for Ramdisk {
    open spec fn inv(&self) -> bool {
        &&& forall|k: u32|
            self@.inodes.contains_key(k) ==> ((#[trigger] self@.inodes[k]).dev == self@.dev
                && self@.inodes[k].inode == k)
        &&& forall|k: u32|
            self@.inodes.contains_key(k) && k != 0 ==> {
                &&& (#[trigger] self@.inodes[k]).file_type == FileType::File
                &&& self@.contents.contains_key(k)
                &&& self@.inodes[k].size == self@.contents[k].len()
            }
    }

    open spec fn spec_open(&self, inode: Inode) -> Result<(), FilesystemError> {
        Result::Ok(())
    }

    open spec fn spec_close(&self, inode: Inode) -> Result<(), FilesystemError> {
        Result::Ok(())
    }

    open spec fn spec_readdir(&self, inode: Inode) -> Result<Seq<DirectoryEntry>, FilesystemError> {
        if inode.file_type == FileType::Directory && inode.dev == self@.dev && inode.inode == 0 {
            Result::Ok(self@.dirents)
        } else {
            Result::Err(FilesystemError::WrongType)
        }
    }

    open spec fn spec_inode(&self, dev: u32, ino: u32) -> Result<Inode, FilesystemError> {
        if dev != self@.dev {
            Result::Err(FilesystemError::WrongType)
        } else if self@.inodes.contains_key(ino) {
            Result::Ok(self@.inodes[ino])
        } else {
            Result::Err(FilesystemError::NotFound)
        }
    }

    /// Reads never change the ramdisk; a file read yields exactly the span
    /// `read_span` names; anything but a cached file inode is `WrongType`.
    open spec fn read_post(
        &self,
        pre: Self,
        inode: Inode,
        offset: u64,
        count: usize,
        r: Result<Vec<u8>, FilesystemError>,
    ) -> bool {
        &&& self@ == pre@
        &&& if inode.file_type != FileType::File || inode.dev != pre@.dev {
            r == Result::<Vec<u8>, FilesystemError>::Err(FilesystemError::WrongType)
        } else if !pre@.contents.contains_key(inode.inode) {
            r == Result::<Vec<u8>, FilesystemError>::Err(FilesystemError::WrongType)
        } else {
            r is Ok && r->Ok_0@ == read_span(pre@.contents[inode.inode], offset, count)
        }
    }

    /// The ramdisk is read-only: every write fails with `WrongType` and
    /// changes nothing.
    open spec fn write_post(
        &self,
        pre: Self,
        inode: Inode,
        offset: u64,
        data: Seq<u8>,
        r: Result<usize, FilesystemError>,
    ) -> bool {
        &&& self@ == pre@
        &&& r == Result::<usize, FilesystemError>::Err(FilesystemError::WrongType)
    }

    fn open(&self, inode: &Inode) -> (r: Result<(), FilesystemError>) {
        Result::Ok(())
    }

    fn close(&self, inode: &Inode) -> (r: Result<(), FilesystemError>) {
        Result::Ok(())
    }

    fn read(&mut self, inode: &Inode, offset: u64, count: usize) -> (r: Result<
        Vec<u8>,
        FilesystemError,
    >) {
        if !(matches!(inode.file_type, FileType::File)) || inode.dev != self.dev {
            return Result::Err(FilesystemError::WrongType);
        }
        match self.contents.get(&inode.inode) {
            Option::None => Result::Err(FilesystemError::WrongType),
            Option::Some(data) => Result::Ok(copy_span(data, offset, count)),
        }
    }

    fn write(&mut self, inode: &Inode, offset: u64, data: &[u8]) -> (r: Result<
        usize,
        FilesystemError,
    >) {
        Result::Err(FilesystemError::WrongType)
    }

    fn readdir(&self, inode: &Inode) -> (r: Result<Vec<DirectoryEntry>, FilesystemError>) {
        if !(matches!(inode.file_type, FileType::Directory)) || inode.dev != self.dev
            || inode.inode != 0 {
            return Result::Err(FilesystemError::WrongType);
        }
        Result::Ok(clone_dirents(&self.dirents))
    }

    fn inode(&self, dev: u32, ino: u32) -> (r: Result<Inode, FilesystemError>) {
        if dev != self.dev {
            return Result::Err(FilesystemError::WrongType);
        }
        match self.inodes.get(&ino) {
            Option::None => Result::Err(FilesystemError::NotFound),
            Option::Some(inode) => Result::Ok(*inode),
        }
    }
}

} // verus!
