//! Virtual filesystem core: inodes, directory entries, the `Filesystem`
//! capability trait, and path traversal.
//!
//! Filesystems are registered under a numeric device id. Path traversal
//! splits on `/`, skips empty segments, and resolves each name through
//! `readdir` and `inode`, which routes across mounts by device id.

use vstd::prelude::*;

verus! {

#[derive(PartialEq, Eq, Structural, Clone, Copy, Debug)]
pub enum FilesystemError {
    UnknownDevice,
    /// The operation does not fit the inode's kind (a file where a
    /// directory is needed, or the other way round).
    WrongType,
    NotFound,
    /// A console read that has to wait for input. The system-call layer
    /// blocks the calling thread and retries; this value never reaches
    /// user space as an error.
    WouldBlock,
}

#[derive(PartialEq, Eq, Structural, Clone, Copy, Debug)]
pub enum FileType {
    File,
    Directory,
    Device,
}

/// VFS in-memory inode. Once a filesystem is registered on the VFS these
/// carry all the information needed to stand in for the on-disk inodes;
/// identity is the pair (dev, inode). File contents and directory listings
/// live in the owning filesystem, keyed by the inode number.
#[derive(Clone, Copy, Debug)]
pub struct Inode {
    /// Filesystem the inode belongs to.
    pub dev: u32,
    /// Inode number within that filesystem.
    pub inode: u32,
    pub file_type: FileType,
    /// Zero for devices.
    pub size: usize,
    /// Device driver number.
    pub major: Option<u32>,
    /// Device number within the driver.
    pub minor: Option<u32>,
}

pub struct DirectoryEntry {
    pub name: String,
    pub inode: u32,
    pub dev: u32,
}

impl DirectoryEntry {
    pub fn clone_entry(&self) -> (r: DirectoryEntry)
        ensures
            r == *self,
    {
        DirectoryEntry { name: self.name.clone(), inode: self.inode, dev: self.dev }
    }
}

pub fn clone_dirents(v: &Vec<DirectoryEntry>) -> (r: Vec<DirectoryEntry>)
    ensures
        r@ == v@,
{
    let mut r: Vec<DirectoryEntry> = Vec::new();
    let mut i: usize = 0;
    while i < v.len()
        invariant
            0 <= i <= v@.len(),
            r@ == v@.take(i as int),
        decreases v@.len() - i,
    {
        r.push(v[i].clone_entry());
        proof {
            assert(r@ =~= v@.take(i + 1));
        }
        i = i + 1;
    }
    proof {
        assert(v@.take(v@.len() as int) =~= v@);
    }
    r
}

pub fn clone_bytes(v: &Vec<u8>) -> (r: Vec<u8>)
    ensures
        r@ == v@,
{
    let mut r: Vec<u8> = Vec::new();
    let mut i: usize = 0;
    while i < v.len()
        invariant
            0 <= i <= v@.len(),
            r@ == v@.take(i as int),
        decreases v@.len() - i,
    {
        r.push(v[i]);
        proof {
            assert(r@ =~= v@.take(i + 1));
        }
        i = i + 1;
    }
    proof {
        assert(v@.take(v@.len() as int) =~= v@);
    }
    r
}

/// Index of the first `/` in `s`, or `s.len()` when there is none.
pub open spec fn first_slash(s: Seq<char>) -> int
    decreases s.len(),
{
    if s.len() == 0 {
        0
    } else if s[0] == '/' {
        0
    } else {
        1 + first_slash(s.drop_first())
    }
}

pub proof fn lemma_first_slash(s: Seq<char>)
    ensures
        0 <= first_slash(s) <= s.len(),
        first_slash(s) < s.len() ==> s[first_slash(s)] == '/',
        forall|j: int| 0 <= j < first_slash(s) ==> s[j] != '/',
    decreases s.len(),
{
    if s.len() > 0 && s[0] != '/' {
        lemma_first_slash(s.drop_first());
        assert forall|j: int| 0 <= j < first_slash(s) implies s[j] != '/' by {
            if j > 0 {
                assert(s.drop_first()[j - 1] != '/');
            }
        }
    }
}

/// The path cut at every `/`: the segments between separators, empty
/// segments included.
pub open spec fn spec_split(s: Seq<char>) -> Seq<Seq<char>>
    decreases s.len(),
{
    let i = first_slash(s);
    if 0 <= i < s.len() {
        seq![s.take(i)] + spec_split(s.skip(i + 1))
    } else {
        seq![s]
    }
}

proof fn lemma_split_unfold(s: Seq<char>, k: int)
    requires
        0 <= k < s.len(),
        s[k] == '/',
        forall|j: int| 0 <= j < k ==> s[j] != '/',
    ensures
        spec_split(s) == seq![s.take(k)] + spec_split(s.skip(k + 1)),
{
    lemma_first_slash(s);
    if first_slash(s) < k {
        assert(s[first_slash(s)] == '/');
    }
    if first_slash(s) > k {
        assert(s[k] != '/');
    }
}

proof fn lemma_split_whole(s: Seq<char>)
    requires
        forall|j: int| 0 <= j < s.len() ==> s[j] != '/',
    ensures
        spec_split(s) == seq![s],
{
    lemma_first_slash(s);
    if first_slash(s) < s.len() {
        assert(s[first_slash(s)] == '/');
    }
}

/// Splits a path on `/`. Empty segments (from leading, trailing or
/// doubled separators) are kept here and skipped during traversal.
pub fn split_path(path: &str) -> (segs: Vec<String>)
    ensures
        segs@.map_values(|t: String| t@) == spec_split(path@),
{
    let n: usize = path.unicode_len();
    let mut segs: Vec<String> = Vec::new();
    let mut start: usize = 0;
    let mut i: usize = 0;
    proof {
        assert(path@.skip(0) =~= path@);
        assert(segs@.map_values(|t: String| t@) + spec_split(path@) =~= spec_split(path@));
    }
    while i < n
        invariant
            0 <= start <= i <= n,
            n == path@.len(),
            spec_split(path@) == segs@.map_values(|t: String| t@) + spec_split(
                path@.skip(start as int),
            ),
            forall|j: int| start <= j < i ==> path@[j] != '/',
        decreases n - i,
    {
        let c = path.get_char(i);
        if c == '/' {
            let seg = path.substring_char(start, i);
            let ghost old_segs = segs@;
            segs.push(String::from_str(seg));
            proof {
                let rest = path@.skip(start as int);
                lemma_split_unfold(rest, i - start);
                assert(rest.take(i - start) =~= path@.subrange(start as int, i as int));
                assert(rest.skip(i - start + 1) =~= path@.skip(i + 1));
                assert(segs@.map_values(|t: String| t@) =~= old_segs.map_values(|t: String| t@)
                    + seq![path@.subrange(start as int, i as int)]);
                assert(segs@.map_values(|t: String| t@) + spec_split(path@.skip(i + 1))
                    =~= old_segs.map_values(|t: String| t@) + spec_split(rest));
            }
            start = i + 1;
        }
        i = i + 1;
    }
    let seg = path.substring_char(start, n);
    let ghost old_segs = segs@;
    segs.push(String::from_str(seg));
    proof {
        let rest = path@.skip(start as int);
        lemma_split_whole(rest);
        assert(rest =~= path@.subrange(start as int, n as int));
        assert(segs@.map_values(|t: String| t@) =~= old_segs.map_values(|t: String| t@) + seq![
            rest,
        ]);
        assert(old_segs.map_values(|t: String| t@) + spec_split(rest) =~= segs@.map_values(
            |t: String| t@,
        ));
    }
    segs
}

/// First entry named `name`, if any.
pub open spec fn spec_find(entries: Seq<DirectoryEntry>, name: Seq<char>) -> Option<DirectoryEntry>
    decreases entries.len(),
{
    if entries.len() == 0 {
        Option::None
    } else if entries[0].name@ == name {
        Option::Some(entries[0])
    } else {
        spec_find(entries.drop_first(), name)
    }
}

pub fn find_entry(entries: &Vec<DirectoryEntry>, name: &String) -> (r: Option<(u32, u32)>)
    ensures
        match spec_find(entries@, name@) {
            Option::Some(d) => r == Option::Some((d.dev, d.inode)),
            Option::None => r is None,
        },
{
    let mut i: usize = 0;
    proof {
        assert(entries@.skip(0) =~= entries@);
    }
    while i < entries.len()
        invariant
            0 <= i <= entries@.len(),
            spec_find(entries@, name@) == spec_find(entries@.skip(i as int), name@),
        decreases entries@.len() - i,
    {
        proof {
            assert(entries@.skip(i as int).drop_first() =~= entries@.skip(i + 1));
            assert(entries@.skip(i as int)[0] == entries@[i as int]);
        }
        if entries[i].name.eq(name) {
            return Option::Some((entries[i].dev, entries[i].inode));
        }
        i = i + 1;
    }
    Option::None
}

/// Capability set every mounted filesystem implements. `open` and `close`
/// book-keep without locking the file; `read` and `write` move bytes;
/// `readdir` enumerates a directory; `inode` looks a number up. Each
/// implementation pins the meaning of its methods through the spec
/// functions below.
pub trait Filesystem: Sized {
    spec fn inv(&self) -> bool;

    spec fn spec_open(&self, inode: Inode) -> Result<(), FilesystemError>;

    spec fn spec_close(&self, inode: Inode) -> Result<(), FilesystemError>;

    spec fn spec_readdir(&self, inode: Inode) -> Result<Seq<DirectoryEntry>, FilesystemError>;

    spec fn spec_inode(&self, dev: u32, ino: u32) -> Result<Inode, FilesystemError>;

    /// Full behaviour of `read`: how the final state and the result relate
    /// to the starting state `pre`.
    spec fn read_post(
        &self,
        pre: Self,
        inode: Inode,
        offset: u64,
        count: usize,
        r: Result<Vec<u8>, FilesystemError>,
    ) -> bool;

    /// Full behaviour of `write`.
    spec fn write_post(
        &self,
        pre: Self,
        inode: Inode,
        offset: u64,
        data: Seq<u8>,
        r: Result<usize, FilesystemError>,
    ) -> bool;

    fn open(&self, inode: &Inode) -> (r: Result<(), FilesystemError>)
        requires
            self.inv(),
        ensures
            r == self.spec_open(*inode),
    ;

    fn close(&self, inode: &Inode) -> (r: Result<(), FilesystemError>)
        requires
            self.inv(),
        ensures
            r == self.spec_close(*inode),
    ;

    fn read(&mut self, inode: &Inode, offset: u64, count: usize) -> (r: Result<
        Vec<u8>,
        FilesystemError,
    >)
        requires
            old(self).inv(),
        ensures
            final(self).inv(),
            final(self).read_post(*old(self), *inode, offset, count, r),
    ;

    fn write(&mut self, inode: &Inode, offset: u64, data: &[u8]) -> (r: Result<
        usize,
        FilesystemError,
    >)
        requires
            old(self).inv(),
        ensures
            final(self).inv(),
            final(self).write_post(*old(self), *inode, offset, data@, r),
    ;

    fn readdir(&self, inode: &Inode) -> (r: Result<Vec<DirectoryEntry>, FilesystemError>)
        requires
            self.inv(),
        ensures
            match (r, self.spec_readdir(*inode)) {
                (Result::Ok(v), Result::Ok(s)) => v@ == s,
                (Result::Err(a), Result::Err(b)) => a == b,
                _ => false,
            },
    ;

    fn inode(&self, dev: u32, ino: u32) -> (r: Result<Inode, FilesystemError>)
        requires
            self.inv(),
        ensures
            r == self.spec_inode(dev, ino),
    ;
}

/// Resolving `segs` against `node`: empty segments are skipped; each other
/// segment is looked up in the current directory's listing and the entry's
/// (dev, inode) resolved through the filesystem; errors stop the walk.
pub open spec fn spec_traverse<FS: Filesystem>(
    fs: FS,
    node: Result<Inode, FilesystemError>,
    segs: Seq<Seq<char>>,
) -> Result<Inode, FilesystemError>
    decreases segs.len(),
{
    if segs.len() == 0 {
        node
    } else if segs[0].len() == 0 {
        spec_traverse(fs, node, segs.drop_first())
    } else {
        match node {
            Result::Err(e) => Result::Err(e),
            Result::Ok(n) => match fs.spec_readdir(n) {
                Result::Err(e) => Result::Err(e),
                Result::Ok(entries) => match spec_find(entries, segs[0]) {
                    Option::None => Result::Err(FilesystemError::NotFound),
                    Option::Some(d) => spec_traverse(
                        fs,
                        fs.spec_inode(d.dev, d.inode),
                        segs.drop_first(),
                    ),
                },
            },
        }
    }
}

/// An error input stays an error whatever the segments.
pub proof fn lemma_traverse_err<FS: Filesystem>(fs: FS, e: FilesystemError, segs: Seq<Seq<char>>)
    ensures
        spec_traverse(fs, Result::Err(e), segs) == Result::<Inode, FilesystemError>::Err(e),
    decreases segs.len(),
{
    if segs.len() > 0 {
        lemma_traverse_err(fs, e, segs.drop_first());
    }
}

/// Law: traversal composes. Resolving `s1 + s2` from a node equals first
/// resolving `s1`, then resolving `s2` from the result; in particular
/// `traverse(root, "/a/b")` equals `traverse(lookup("a", root), "b")`.
pub proof fn lemma_traverse_append<FS: Filesystem>(
    fs: FS,
    node: Result<Inode, FilesystemError>,
    s1: Seq<Seq<char>>,
    s2: Seq<Seq<char>>,
)
    ensures
        spec_traverse(fs, node, s1 + s2) == spec_traverse(fs, spec_traverse(fs, node, s1), s2),
    decreases s1.len(),
{
    if s1.len() == 0 {
        assert(s1 + s2 =~= s2);
    } else {
        let rest = s1.drop_first();
        assert((s1 + s2).drop_first() =~= rest + s2);
        assert((s1 + s2)[0] == s1[0]);
        if s1[0].len() == 0 {
            lemma_traverse_append(fs, node, rest, s2);
        } else {
            match node {
                Result::Err(e) => {
                    lemma_traverse_err(fs, e, s1 + s2);
                    lemma_traverse_err(fs, e, s1);
                    lemma_traverse_err(fs, e, s2);
                },
                Result::Ok(n) => match fs.spec_readdir(n) {
                    Result::Err(e) => {
                        lemma_traverse_err(fs, e, s2);
                    },
                    Result::Ok(entries) => match spec_find(entries, s1[0]) {
                        Option::None => {
                            lemma_traverse_err(fs, FilesystemError::NotFound, s2);
                        },
                        Option::Some(d) => {
                            lemma_traverse_append(fs, fs.spec_inode(d.dev, d.inode), rest, s2);
                        },
                    },
                },
            }
        }
    }
}

/// Law: empty segments do not matter, so leading or doubled `/` leave the
/// result unchanged: traversal of `segs` equals traversal of `segs` with
/// all empty segments removed.
pub proof fn lemma_traverse_skips_empty<FS: Filesystem>(
    fs: FS,
    node: Result<Inode, FilesystemError>,
    segs: Seq<Seq<char>>,
)
    ensures
        spec_traverse(fs, node, segs) == spec_traverse(
            fs,
            node,
            segs.filter(|s: Seq<char>| s.len() > 0),
        ),
    decreases segs.len(),
{
    let f = |s: Seq<char>| s.len() > 0;
    if segs.len() == 0 {
        assert(segs.filter(f) =~= segs);
    } else {
        let rest = segs.drop_first();
        assert(seq![segs[0]] + rest =~= segs);
        Seq::<Seq<char>>::filter_distributes_over_add(seq![segs[0]], rest, f);
        reveal_with_fuel(Seq::filter, 2);
        assert(seq![segs[0]].drop_last() =~= Seq::<Seq<char>>::empty());
        if segs[0].len() == 0 {
            assert(seq![segs[0]].filter(f) =~= Seq::<Seq<char>>::empty());
            assert(segs.filter(f) =~= rest.filter(f));
            lemma_traverse_skips_empty(fs, node, rest);
        } else {
            assert(seq![segs[0]].filter(f) =~= seq![segs[0]]);
            assert(segs.filter(f) =~= seq![segs[0]] + rest.filter(f));
            match node {
                Result::Err(e) => {
                    lemma_traverse_err(fs, e, segs);
                    lemma_traverse_err(fs, e, segs.filter(f));
                },
                Result::Ok(n) => match fs.spec_readdir(n) {
                    Result::Err(_) => {
                        assert(segs.filter(f)[0] == segs[0]);
                        assert(segs.filter(f).len() > 0);
                    },
                    Result::Ok(entries) => {
                        assert(segs.filter(f)[0] == segs[0]);
                        assert(segs.filter(f).drop_first() =~= rest.filter(f));
                        match spec_find(entries, segs[0]) {
                            Option::None => {},
                            Option::Some(d) => {
                                lemma_traverse_skips_empty(
                                    fs,
                                    fs.spec_inode(d.dev, d.inode),
                                    rest,
                                );
                            },
                        }
                    },
                },
            }
        }
    }
}

/// Finds the inode at `path` relative to `root`. The walk calls `readdir`
/// on the current inode to find the named entry, then resolves the entry's
/// device and inode number through `inode`, which crosses mounts by
/// device id.
pub fn traverse<FS: Filesystem>(fs: &FS, root: &Inode, path: &str) -> (r: Result<
    Inode,
    FilesystemError,
>)
    requires
        fs.inv(),
    ensures
        r == spec_traverse(*fs, Result::<Inode, FilesystemError>::Ok(*root), spec_split(path@)),
{
    let segs = split_path(path);
    let ghost all = spec_split(path@);
    let mut cur: Result<Inode, FilesystemError> = Result::Ok(*root);
    let mut i: usize = 0;
    proof {
        assert(all.skip(0) =~= all);
    }
    while i < segs.len()
        invariant
            fs.inv(),
            0 <= i <= segs@.len(),
            all == spec_split(path@),
            segs@.map_values(|t: String| t@) == all,
            spec_traverse(*fs, Result::<Inode, FilesystemError>::Ok(*root), all) == spec_traverse(
                *fs,
                cur,
                all.skip(i as int),
            ),
        decreases segs@.len() - i,
    {
        let ghost seg = all[i as int];
        proof {
            assert(all.skip(i as int)[0] == seg);
            assert(all.skip(i as int).drop_first() =~= all.skip(i + 1));
        }
        let ghost pre = cur;
        if !segs[i].as_str().is_empty() {
            proof {
                assert(seg.len() > 0);
            }
            match cur {
                Result::Err(e) => {
                    proof {
                        lemma_traverse_err(*fs, e, all.skip(i as int));
                    }
                    return Result::Err(e);
                },
                Result::Ok(n) => {
                    match fs.readdir(&n) {
                        Result::Err(e) => {
                            cur = Result::Err(e);
                            proof {
                                lemma_traverse_err(*fs, e, all.skip(i + 1));
                            }
                        },
                        Result::Ok(entries) => {
                            match find_entry(&entries, &segs[i]) {
                                Option::None => {
                                    cur = Result::Err(FilesystemError::NotFound);
                                    proof {
                                        assert(entries@ == fs.spec_readdir(n)->Ok_0);
                                        assert(spec_find(
                                            fs.spec_readdir(n)->Ok_0,
                                            seg,
                                        ) is None);
                                        lemma_traverse_err(
                                            *fs,
                                            FilesystemError::NotFound,
                                            all.skip(i + 1),
                                        );
                                    }
                                },
                                Option::Some((dev, ino)) => {
                                    cur = fs.inode(dev, ino);
                                },
                            }
                        },
                    }
                },
            }
        } else {
            proof {
                assert(seg.len() == 0);
            }
        }
        i = i + 1;
    }
    proof {
        assert(all.skip(segs@.len() as int) =~= Seq::<Seq<char>>::empty());
    }
    cur
}

} // verus!
