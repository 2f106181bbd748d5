//! The mounted-filesystem registry: the VFS root holds the mount table as
//! its own directory listing, and routes every operation to the owning
//! filesystem by device id.

use vstd::prelude::*;

use crate::devfs::Devfs;
use crate::initrd::Initrd;
use crate::ramdisk::Ramdisk;
use crate::vfs::clone_dirents;
use crate::vfs::traverse;
use crate::vfs::spec_split;
use crate::vfs::spec_traverse;
use crate::vfs::DirectoryEntry;
use crate::vfs::FileType;
use crate::vfs::Filesystem;
use crate::vfs::FilesystemError;
use crate::vfs::Inode;
use std::collections::BTreeMap;

verus! {

broadcast use vstd::laws_cmp::group_laws_cmp;

/// One mounted filesystem. The kernel mounts the device filesystem and
/// the ramdisk holding the init program.
pub enum MountedFilesystem {
    Dev(Devfs),
    Disk(Ramdisk),
    Boot(Initrd),
}

impl Filesystem for MountedFilesystem {
    open spec fn inv(&self) -> bool {
        match self {
            MountedFilesystem::Dev(fs) => fs.inv(),
            MountedFilesystem::Disk(fs) => fs.inv(),
            MountedFilesystem::Boot(fs) => fs.inv(),
        }
    }

    open spec fn spec_open(&self, inode: Inode) -> Result<(), FilesystemError> {
        match self {
            MountedFilesystem::Dev(fs) => fs.spec_open(inode),
            MountedFilesystem::Disk(fs) => fs.spec_open(inode),
            MountedFilesystem::Boot(fs) => fs.spec_open(inode),
        }
    }

    open spec fn spec_close(&self, inode: Inode) -> Result<(), FilesystemError> {
        match self {
            MountedFilesystem::Dev(fs) => fs.spec_close(inode),
            MountedFilesystem::Disk(fs) => fs.spec_close(inode),
            MountedFilesystem::Boot(fs) => fs.spec_close(inode),
        }
    }

    open spec fn spec_readdir(&self, inode: Inode) -> Result<Seq<DirectoryEntry>, FilesystemError> {
        match self {
            MountedFilesystem::Dev(fs) => fs.spec_readdir(inode),
            MountedFilesystem::Disk(fs) => fs.spec_readdir(inode),
            MountedFilesystem::Boot(fs) => fs.spec_readdir(inode),
        }
    }

    open spec fn spec_inode(&self, dev: u32, ino: u32) -> Result<Inode, FilesystemError> {
        match self {
            MountedFilesystem::Dev(fs) => fs.spec_inode(dev, ino),
            MountedFilesystem::Disk(fs) => fs.spec_inode(dev, ino),
            MountedFilesystem::Boot(fs) => fs.spec_inode(dev, ino),
        }
    }

    open spec fn read_post(
        &self,
        pre: Self,
        inode: Inode,
        offset: u64,
        count: usize,
        r: Result<Vec<u8>, FilesystemError>,
    ) -> bool {
        match (self, pre) {
            (MountedFilesystem::Dev(fs), MountedFilesystem::Dev(p)) => fs.read_post(
                p,
                inode,
                offset,
                count,
                r,
            ),
            (MountedFilesystem::Disk(fs), MountedFilesystem::Disk(p)) => fs.read_post(
                p,
                inode,
                offset,
                count,
                r,
            ),
            (MountedFilesystem::Boot(fs), MountedFilesystem::Boot(p)) => fs.read_post(
                p,
                inode,
                offset,
                count,
                r,
            ),
            _ => false,
        }
    }

    open spec fn write_post(
        &self,
        pre: Self,
        inode: Inode,
        offset: u64,
        data: Seq<u8>,
        r: Result<usize, FilesystemError>,
    ) -> bool {
        match (self, pre) {
            (MountedFilesystem::Dev(fs), MountedFilesystem::Dev(p)) => fs.write_post(
                p,
                inode,
                offset,
                data,
                r,
            ),
            (MountedFilesystem::Disk(fs), MountedFilesystem::Disk(p)) => fs.write_post(
                p,
                inode,
                offset,
                data,
                r,
            ),
            (MountedFilesystem::Boot(fs), MountedFilesystem::Boot(p)) => fs.write_post(
                p,
                inode,
                offset,
                data,
                r,
            ),
            _ => false,
        }
    }

    fn open(&self, inode: &Inode) -> (r: Result<(), FilesystemError>) {
        match self {
            MountedFilesystem::Dev(fs) => fs.open(inode),
            MountedFilesystem::Disk(fs) => fs.open(inode),
            MountedFilesystem::Boot(fs) => fs.open(inode),
        }
    }

    fn close(&self, inode: &Inode) -> (r: Result<(), FilesystemError>) {
        match self {
            MountedFilesystem::Dev(fs) => fs.close(inode),
            MountedFilesystem::Disk(fs) => fs.close(inode),
            MountedFilesystem::Boot(fs) => fs.close(inode),
        }
    }

    fn read(&mut self, inode: &Inode, offset: u64, count: usize) -> (r: Result<
        Vec<u8>,
        FilesystemError,
    >) {
        match self {
            MountedFilesystem::Dev(fs) => fs.read(inode, offset, count),
            MountedFilesystem::Disk(fs) => fs.read(inode, offset, count),
            MountedFilesystem::Boot(fs) => fs.read(inode, offset, count),
        }
    }

    fn write(&mut self, inode: &Inode, offset: u64, data: &[u8]) -> (r: Result<
        usize,
        FilesystemError,
    >) {
        match self {
            MountedFilesystem::Dev(fs) => fs.write(inode, offset, data),
            MountedFilesystem::Disk(fs) => fs.write(inode, offset, data),
            MountedFilesystem::Boot(fs) => fs.write(inode, offset, data),
        }
    }

    fn readdir(&self, inode: &Inode) -> (r: Result<Vec<DirectoryEntry>, FilesystemError>) {
        match self {
            MountedFilesystem::Dev(fs) => fs.readdir(inode),
            MountedFilesystem::Disk(fs) => fs.readdir(inode),
            MountedFilesystem::Boot(fs) => fs.readdir(inode),
        }
    }

    fn inode(&self, dev: u32, ino: u32) -> (r: Result<Inode, FilesystemError>) {
        match self {
            MountedFilesystem::Dev(fs) => fs.inode(dev, ino),
            MountedFilesystem::Disk(fs) => fs.inode(dev, ino),
            MountedFilesystem::Boot(fs) => fs.inode(dev, ino),
        }
    }
}

/// Mathematical state of the VFS: the mount table and the registered
/// filesystems by device id.
pub struct VfsView {
    pub filesystems: Map<u32, MountedFilesystem>,
    pub dirents: Seq<DirectoryEntry>,
    pub root: Inode,
}

/// The virtual filesystem. The root pseudo-inode is (device 0, inode 0);
/// its listing is the mount table, so traversal crosses into a mounted
/// filesystem as it resolves the mount's name.
pub struct VirtualFileSystem {
    filesystems: BTreeMap<u32, MountedFilesystem>,
    dirents: Vec<DirectoryEntry>,
    root: Inode,
}

impl View for VirtualFileSystem {
    type V = VfsView;

    closed spec fn view(&self) -> VfsView {
        VfsView { filesystems: self.filesystems@, dirents: self.dirents@, root: self.root }
    }
}

/// A device filesystem is mounted at `dev`.
pub open spec fn spec_is_devfs(v: VfsView, dev: u32) -> bool {
    &&& v.filesystems.contains_key(dev)
    &&& v.filesystems[dev] is Dev
}

/// The state of the device filesystem mounted at `dev`.
pub open spec fn spec_devfs_view(v: VfsView, dev: u32) -> crate::devfs::DevfsView
    recommends
        spec_is_devfs(v, dev),
{
    v.filesystems[dev]->Dev_0@
}

/// The thread waiting for console input at `dev`, when a device
/// filesystem is mounted there.
pub open spec fn spec_console_waiter(v: VfsView, dev: u32) -> Option<u32> {
    if spec_is_devfs(v, dev) {
        spec_devfs_view(v, dev).waiting
    } else {
        Option::None
    }
}

pub open spec fn spec_vfs_root() -> Inode {
    Inode {
        dev: 0,
        inode: 0,
        file_type: FileType::Directory,
        size: 0,
        major: Option::None,
        minor: Option::None,
    }
}

impl VirtualFileSystem {
    /// An empty VFS: nothing mounted, the root listing empty.
    pub fn new() -> (r: VirtualFileSystem)
        ensures
            r.inv(),
            r@.filesystems == Map::<u32, MountedFilesystem>::empty(),
            r@.dirents == Seq::<DirectoryEntry>::empty(),
            r@.root == spec_vfs_root(),
    {
        VirtualFileSystem {
            filesystems: BTreeMap::new(),
            dirents: Vec::new(),
            root: Inode {
                dev: 0,
                inode: 0,
                file_type: FileType::Directory,
                size: 0,
                major: Option::None,
                minor: Option::None,
            },
        }
    }

    /// The root pseudo-inode.
    pub fn root(&self) -> (r: Inode)
        ensures
            r == self@.root,
    {
        self.root
    }

    /// Mounts `filesystem` under device id `dev`, listing it in the root
    /// directory as `name` pointing at the filesystem's `root_inode`.
    /// Only root mounting is supported.
    pub fn mount(
        &mut self,
        dev: u32,
        filesystem: MountedFilesystem,
        name: &str,
        root_inode: u32,
    ) -> (r: Result<(), FilesystemError>)
        requires
            old(self).inv(),
            filesystem.inv(),
            dev != 0,
        ensures
            final(self).inv(),
            r is Ok,
            final(self)@.filesystems == old(self)@.filesystems.insert(dev, filesystem),
            final(self)@.root == old(self)@.root,
            final(self)@.dirents.len() == old(self)@.dirents.len() + 1,
            final(self)@.dirents.drop_last() == old(self)@.dirents,
            final(self)@.dirents.last().name@ == name@,
            final(self)@.dirents.last().inode == root_inode,
            final(self)@.dirents.last().dev == dev,
    {
        self.filesystems.insert(dev, filesystem);
        self.dirents.push(DirectoryEntry { name: name.to_owned(), inode: root_inode, dev });
        proof {
            assert(self@.dirents.drop_last() =~= old(self)@.dirents);
        }
        Result::Ok(())
    }
}

impl Filesystem for VirtualFileSystem {
    open spec fn inv(&self) -> bool {
        &&& self@.root == spec_vfs_root()
        &&& !self@.filesystems.contains_key(0)
        &&& forall|k: u32|
            self@.filesystems.contains_key(k) ==> (#[trigger] self@.filesystems[k]).inv()
    }

    /// The root inode needs no bookkeeping; everything else routes to the
    /// owning filesystem when the inode is a file or a device.
    open spec fn spec_open(&self, inode: Inode) -> Result<(), FilesystemError> {
        if inode.dev == 0 {
            Result::Ok(())
        } else if inode.file_type == FileType::Device || inode.file_type == FileType::File {
            if self@.filesystems.contains_key(inode.dev) {
                self@.filesystems[inode.dev].spec_open(inode)
            } else {
                Result::Err(FilesystemError::UnknownDevice)
            }
        } else {
            Result::Err(FilesystemError::WrongType)
        }
    }

    open spec fn spec_close(&self, inode: Inode) -> Result<(), FilesystemError> {
        if inode.dev == 0 {
            Result::Ok(())
        } else if inode.file_type == FileType::Device || inode.file_type == FileType::File {
            if self@.filesystems.contains_key(inode.dev) {
                self@.filesystems[inode.dev].spec_close(inode)
            } else {
                Result::Err(FilesystemError::UnknownDevice)
            }
        } else {
            Result::Err(FilesystemError::WrongType)
        }
    }

    /// The root pseudo-inode lists the mount table; directories route to
    /// the owning filesystem.
    open spec fn spec_readdir(&self, inode: Inode) -> Result<Seq<DirectoryEntry>, FilesystemError> {
        if inode.dev == 0 && inode.inode == 0 {
            Result::Ok(self@.dirents)
        } else if inode.file_type == FileType::Directory {
            if self@.filesystems.contains_key(inode.dev) {
                self@.filesystems[inode.dev].spec_readdir(inode)
            } else {
                Result::Err(FilesystemError::UnknownDevice)
            }
        } else {
            Result::Err(FilesystemError::WrongType)
        }
    }

    open spec fn spec_inode(&self, dev: u32, ino: u32) -> Result<Inode, FilesystemError> {
        if dev == 0 && ino == 0 {
            Result::Ok(self@.root)
        } else if self@.filesystems.contains_key(dev) {
            self@.filesystems[dev].spec_inode(dev, ino)
        } else {
            Result::Err(FilesystemError::UnknownDevice)
        }
    }

    /// A read on a file or device inode is exactly the owning
    /// filesystem's read on it; the mount table and every other
    /// filesystem stay untouched.
    open spec fn read_post(
        &self,
        pre: Self,
        inode: Inode,
        offset: u64,
        count: usize,
        r: Result<Vec<u8>, FilesystemError>,
    ) -> bool {
        if !(inode.file_type == FileType::Device || inode.file_type == FileType::File) {
            &&& self@ == pre@
            &&& r == Result::<Vec<u8>, FilesystemError>::Err(FilesystemError::WrongType)
        } else if !pre@.filesystems.contains_key(inode.dev) {
            &&& self@ == pre@
            &&& r == Result::<Vec<u8>, FilesystemError>::Err(FilesystemError::UnknownDevice)
        } else {
            &&& self@.dirents == pre@.dirents
            &&& self@.root == pre@.root
            &&& self@.filesystems.contains_key(inode.dev)
            &&& self@.filesystems == pre@.filesystems.insert(
                inode.dev,
                self@.filesystems[inode.dev],
            )
            &&& self@.filesystems[inode.dev].read_post(
                pre@.filesystems[inode.dev],
                inode,
                offset,
                count,
                r,
            )
        }
    }

    open spec fn write_post(
        &self,
        pre: Self,
        inode: Inode,
        offset: u64,
        data: Seq<u8>,
        r: Result<usize, FilesystemError>,
    ) -> bool {
        if !(inode.file_type == FileType::Device || inode.file_type == FileType::File) {
            &&& self@ == pre@
            &&& r == Result::<usize, FilesystemError>::Err(FilesystemError::WrongType)
        } else if !pre@.filesystems.contains_key(inode.dev) {
            &&& self@ == pre@
            &&& r == Result::<usize, FilesystemError>::Err(FilesystemError::UnknownDevice)
        } else {
            &&& self@.dirents == pre@.dirents
            &&& self@.root == pre@.root
            &&& self@.filesystems.contains_key(inode.dev)
            &&& self@.filesystems == pre@.filesystems.insert(
                inode.dev,
                self@.filesystems[inode.dev],
            )
            &&& self@.filesystems[inode.dev].write_post(
                pre@.filesystems[inode.dev],
                inode,
                offset,
                data,
                r,
            )
        }
    }

    fn open(&self, inode: &Inode) -> (r: Result<(), FilesystemError>) {
        if inode.dev == 0 {
            return Result::Ok(());
        }
        let routable = match inode.file_type {
            FileType::Device => true,
            FileType::File => true,
            _ => false,
        };
        if !routable {
            return Result::Err(FilesystemError::WrongType);
        }
        match self.filesystems.get(&inode.dev) {
            Option::None => Result::Err(FilesystemError::UnknownDevice),
            Option::Some(fs) => fs.open(inode),
        }
    }

    fn close(&self, inode: &Inode) -> (r: Result<(), FilesystemError>) {
        if inode.dev == 0 {
            return Result::Ok(());
        }
        let routable = match inode.file_type {
            FileType::Device => true,
            FileType::File => true,
            _ => false,
        };
        if !routable {
            return Result::Err(FilesystemError::WrongType);
        }
        match self.filesystems.get(&inode.dev) {
            Option::None => Result::Err(FilesystemError::UnknownDevice),
            Option::Some(fs) => fs.close(inode),
        }
    }

    fn read(&mut self, inode: &Inode, offset: u64, count: usize) -> (r: Result<
        Vec<u8>,
        FilesystemError,
    >) {
        let routable = match inode.file_type {
            FileType::Device => true,
            FileType::File => true,
            _ => false,
        };
        if !routable {
            return Result::Err(FilesystemError::WrongType);
        }
        match self.filesystems.remove(&inode.dev) {
            Option::None => {
                proof {
                    assert(self@.filesystems =~= old(self)@.filesystems);
                }
                Result::Err(FilesystemError::UnknownDevice)
            },
            Option::Some(fs) => {
                let mut fs = fs;
                let ghost fs_pre = fs;
                proof {
                    assert(old(self)@.filesystems.contains_key(inode.dev));
                    assert(fs_pre == old(self)@.filesystems[inode.dev]);
                    assert(old(self)@.filesystems[inode.dev].inv());
                }
                let r = fs.read(inode, offset, count);
                let ghost fs_post = fs;
                self.filesystems.insert(inode.dev, fs);
                proof {
                    assert(self@.filesystems[inode.dev] == fs_post);
                    assert(self@.filesystems =~= old(self)@.filesystems.insert(
                        inode.dev,
                        fs_post,
                    ));
                    assert forall|k: u32| self@.filesystems.contains_key(k) implies (
                    #[trigger] self@.filesystems[k]).inv() by {
                        if k != inode.dev {
                            assert(old(self)@.filesystems.contains_key(k));
                            assert(old(self)@.filesystems[k].inv());
                        }
                    }
                }
                r
            },
        }
    }

    fn write(&mut self, inode: &Inode, offset: u64, data: &[u8]) -> (r: Result<
        usize,
        FilesystemError,
    >) {
        let routable = match inode.file_type {
            FileType::Device => true,
            FileType::File => true,
            _ => false,
        };
        if !routable {
            return Result::Err(FilesystemError::WrongType);
        }
        match self.filesystems.remove(&inode.dev) {
            Option::None => {
                proof {
                    assert(self@.filesystems =~= old(self)@.filesystems);
                }
                Result::Err(FilesystemError::UnknownDevice)
            },
            Option::Some(fs) => {
                let mut fs = fs;
                let ghost fs_pre = fs;
                proof {
                    assert(old(self)@.filesystems.contains_key(inode.dev));
                    assert(fs_pre == old(self)@.filesystems[inode.dev]);
                    assert(old(self)@.filesystems[inode.dev].inv());
                }
                let r = fs.write(inode, offset, data);
                let ghost fs_post = fs;
                self.filesystems.insert(inode.dev, fs);
                proof {
                    assert(self@.filesystems[inode.dev] == fs_post);
                    assert(self@.filesystems =~= old(self)@.filesystems.insert(
                        inode.dev,
                        fs_post,
                    ));
                    assert forall|k: u32| self@.filesystems.contains_key(k) implies (
                    #[trigger] self@.filesystems[k]).inv() by {
                        if k != inode.dev {
                            assert(old(self)@.filesystems.contains_key(k));
                            assert(old(self)@.filesystems[k].inv());
                        }
                    }
                }
                r
            },
        }
    }

    fn readdir(&self, inode: &Inode) -> (r: Result<Vec<DirectoryEntry>, FilesystemError>) {
        if inode.dev == 0 && inode.inode == 0 {
            return Result::Ok(clone_dirents(&self.dirents));
        }
        let routable = match inode.file_type {
            FileType::Directory => true,
            _ => false,
        };
        if !routable {
            return Result::Err(FilesystemError::WrongType);
        }
        match self.filesystems.get(&inode.dev) {
            Option::None => Result::Err(FilesystemError::UnknownDevice),
            Option::Some(fs) => fs.readdir(inode),
        }
    }

    fn inode(&self, dev: u32, ino: u32) -> (r: Result<Inode, FilesystemError>) {
        if dev == 0 && ino == 0 {
            return Result::Ok(self.root);
        }
        match self.filesystems.get(&dev) {
            Option::None => Result::Err(FilesystemError::UnknownDevice),
            Option::Some(fs) => fs.inode(dev, ino),
        }
    }
}

impl VirtualFileSystem {
    /// Reads a whole file: finds `path` from the root, opens it, reads
    /// `size` bytes from offset 0, and closes it again; the first error
    /// on the way is returned as is.
    pub fn read_file(&mut self, path: &str) -> (r: Result<Vec<u8>, FilesystemError>)
        requires
            old(self).inv(),
        ensures
            final(self).inv(),
            (match spec_traverse(
                *old(self),
                Result::<Inode, FilesystemError>::Ok(old(self)@.root),
                spec_split(path@),
            ) {
                Result::Err(e) => final(self)@ == old(self)@ && r == Result::<
                    Vec<u8>,
                    FilesystemError,
                >::Err(e),
                Result::Ok(ino) => match old(self).spec_open(ino) {
                    Result::Err(e) => final(self)@ == old(self)@ && r == Result::<
                        Vec<u8>,
                        FilesystemError,
                    >::Err(e),
                    Result::Ok(u) => exists|inner: Result<Vec<u8>, FilesystemError>|
                        {
                            &&& #[trigger] final(self).read_post(
                                *old(self),
                                ino,
                                0u64,
                                ino.size,
                                inner,
                            )
                            &&& match inner {
                                Result::Err(e) => r == Result::<Vec<u8>, FilesystemError>::Err(e),
                                Result::Ok(bytes) => match final(self).spec_close(ino) {
                                    Result::Err(e) => r == Result::<Vec<u8>, FilesystemError>::Err(
                                        e,
                                    ),
                                    Result::Ok(u2) => r == Result::<Vec<u8>, FilesystemError>::Ok(
                                        bytes,
                                    ),
                                },
                            }
                        },
                },
            }),
    {
        let root = self.root();
        let inode = match self.traverse_fs(&root, path) {
            Result::Err(e) => {
                return Result::Err(e);
            },
            Result::Ok(i) => i,
        };
        match self.open(&inode) {
            Result::Err(e) => {
                return Result::Err(e);
            },
            Result::Ok(_) => {},
        }
        let count = inode.size;
        let bytes = match self.read(&inode, 0, count) {
            Result::Err(e) => {
                return Result::Err(e);
            },
            Result::Ok(b) => b,
        };
        match self.close(&inode) {
            Result::Err(e) => Result::Err(e),
            Result::Ok(_) => Result::Ok(bytes),
        }
    }

    /// Hands a raw keyboard scancode to the device filesystem mounted at
    /// `dev` and reports the thread (if any) waiting for console input:
    /// the scancode joins the ring (dropping the oldest when full) and
    /// everything else stays as it was. Nothing happens when `dev` is not
    /// a device filesystem.
    pub fn push_scancode(&mut self, dev: u32, scancode: u8) -> (wake: Option<u32>)
        requires
            old(self).inv(),
        ensures
            final(self).inv(),
            final(self)@.dirents == old(self)@.dirents,
            final(self)@.root == old(self)@.root,
            !spec_is_devfs(old(self)@, dev) ==> (final(self)@ == old(self)@ && wake is None),
            spec_is_devfs(old(self)@, dev) ==> ({
                let pre = spec_devfs_view(old(self)@, dev);
                let post = spec_devfs_view(final(self)@, dev);
                &&& wake == pre.waiting
                &&& spec_is_devfs(final(self)@, dev)
                &&& final(self)@.filesystems == old(self)@.filesystems.insert(
                    dev,
                    final(self)@.filesystems[dev],
                )
                &&& post.pending == pre.pending
                &&& post.waiting == pre.waiting
                &&& post.console == pre.console
                &&& post.dev == pre.dev
                &&& (pre.queue.len() < crate::devfs::SCANCODE_QUEUE_CAPACITY ==> post.queue
                    == pre.queue.push(scancode))
                &&& (pre.queue.len() >= crate::devfs::SCANCODE_QUEUE_CAPACITY ==> post.queue
                    == pre.queue.drop_first().push(scancode))
            }),
    {
        match self.filesystems.remove(&dev) {
            Option::None => {
                proof {
                    assert(self@.filesystems =~= old(self)@.filesystems);
                }
                Option::None
            },
            Option::Some(fs) => {
                let mut fs = fs;
                proof {
                    assert(old(self)@.filesystems.contains_key(dev));
                    assert(fs == old(self)@.filesystems[dev]);
                    assert(old(self)@.filesystems[dev].inv());
                }
                let ghost fs0 = fs;
                let wake = match &mut fs {
                    MountedFilesystem::Dev(d) => d.push_scancode(scancode),
                    _ => Option::None,
                };
                self.filesystems.insert(dev, fs);
                proof {
                    assert forall|k: u32| self@.filesystems.contains_key(k) implies (
                    #[trigger] self@.filesystems[k]).inv() by {
                        if k != dev {
                            assert(old(self)@.filesystems.contains_key(k));
                            assert(old(self)@.filesystems[k].inv());
                        }
                    }
                    if !(fs0 is Dev) {
                        assert(self@.filesystems =~= old(self)@.filesystems);
                    } else {
                        assert(self@.filesystems =~= old(self)@.filesystems.insert(
                            dev,
                            self@.filesystems[dev],
                        ));
                    }
                }
                wake
            },
        }
    }

    /// Records (or clears) the thread waiting for console input on the
    /// device filesystem mounted at `dev`; nothing else changes.
    pub fn set_console_waiting(&mut self, dev: u32, tid: Option<u32>)
        requires
            old(self).inv(),
        ensures
            final(self).inv(),
            final(self)@.dirents == old(self)@.dirents,
            final(self)@.root == old(self)@.root,
            !spec_is_devfs(old(self)@, dev) ==> final(self)@ == old(self)@,
            spec_is_devfs(old(self)@, dev) ==> ({
                let pre = spec_devfs_view(old(self)@, dev);
                let post = spec_devfs_view(final(self)@, dev);
                &&& spec_is_devfs(final(self)@, dev)
                &&& final(self)@.filesystems == old(self)@.filesystems.insert(
                    dev,
                    final(self)@.filesystems[dev],
                )
                &&& post == (crate::devfs::DevfsView { waiting: tid, ..pre })
            }),
    {
        match self.filesystems.remove(&dev) {
            Option::None => {
                proof {
                    assert(self@.filesystems =~= old(self)@.filesystems);
                }
            },
            Option::Some(fs) => {
                let mut fs = fs;
                proof {
                    assert(old(self)@.filesystems.contains_key(dev));
                    assert(fs == old(self)@.filesystems[dev]);
                    assert(old(self)@.filesystems[dev].inv());
                }
                let ghost fs0 = fs;
                match &mut fs {
                    MountedFilesystem::Dev(d) => d.set_waiting(tid),
                    _ => {},
                }
                self.filesystems.insert(dev, fs);
                proof {
                    assert forall|k: u32| self@.filesystems.contains_key(k) implies (
                    #[trigger] self@.filesystems[k]).inv() by {
                        if k != dev {
                            assert(old(self)@.filesystems.contains_key(k));
                            assert(old(self)@.filesystems[k].inv());
                        }
                    }
                    if !(fs0 is Dev) {
                        assert(self@.filesystems =~= old(self)@.filesystems);
                    } else {
                        assert(self@.filesystems =~= old(self)@.filesystems.insert(
                            dev,
                            self@.filesystems[dev],
                        ));
                    }
                }
            },
        }
    }

    /// The character shown at cell (row, col) of the console of the
    /// device filesystem mounted at `dev`, for embedders and tests.
    pub fn console_char_at(&self, dev: u32, row: usize, col: usize) -> (r: Option<u8>)
        requires
            self.inv(),
    {
        match self.filesystems.get(&dev) {
            Option::None => Option::None,
            Option::Some(fs) => match fs {
                MountedFilesystem::Dev(d) => {
                    proof {
                        assert(self@.filesystems.contains_key(dev));
                        assert(self@.filesystems[dev].inv());
                    }
                    let (rows, cols) = d.console_size();
                    if row < rows && col < cols {
                        Option::Some(d.console_char_at(row, col))
                    } else {
                        Option::None
                    }
                },
                _ => Option::None,
            },
        }
    }

    /// The cursor of that console.
    pub fn console_cursor_of(&self, dev: u32) -> (r: Option<(usize, usize)>)
        requires
            self.inv(),
    {
        match self.filesystems.get(&dev) {
            Option::None => Option::None,
            Option::Some(fs) => match fs {
                MountedFilesystem::Dev(d) => Option::Some(d.console_cursor()),
                _ => Option::None,
            },
        }
    }

    /// Finds the inode at `path` relative to `root` by walking the mount
    /// table and the mounted filesystems' directories.
    pub fn traverse_fs(&self, root: &Inode, path: &str) -> (r: Result<Inode, FilesystemError>)
        requires
            self.inv(),
        ensures
            r == spec_traverse(
                *self,
                Result::<Inode, FilesystemError>::Ok(*root),
                spec_split(path@),
            ),
    {
        traverse(self, root, path)
    }
}

/// Convenience function to read the entirety of a file; the boot path
/// uses it to load the init program from the ramdisk.
pub fn read(vfs: &mut VirtualFileSystem, path: &str) -> (r: Result<Vec<u8>, FilesystemError>)
    requires
        old(vfs).inv(),
    ensures
        final(vfs).inv(),
        (match spec_traverse(
            *old(vfs),
            Result::<Inode, FilesystemError>::Ok(old(vfs)@.root),
            spec_split(path@),
        ) {
            Result::Err(e) => final(vfs)@ == old(vfs)@ && r == Result::<
                Vec<u8>,
                FilesystemError,
            >::Err(e),
            Result::Ok(ino) => match old(vfs).spec_open(ino) {
                Result::Err(e) => final(vfs)@ == old(vfs)@ && r == Result::<
                    Vec<u8>,
                    FilesystemError,
                >::Err(e),
                Result::Ok(u) => exists|inner: Result<Vec<u8>, FilesystemError>|
                    {
                        &&& #[trigger] final(vfs).read_post(*old(vfs), ino, 0u64, ino.size, inner)
                        &&& match inner {
                            Result::Err(e) => r == Result::<Vec<u8>, FilesystemError>::Err(e),
                            Result::Ok(bytes) => match final(vfs).spec_close(ino) {
                                Result::Err(e) => r == Result::<Vec<u8>, FilesystemError>::Err(e),
                                Result::Ok(u2) => r == Result::<Vec<u8>, FilesystemError>::Ok(
                                    bytes,
                                ),
                            },
                        }
                    },
            },
        }),
{
    vfs.read_file(path)
}

} // verus!
