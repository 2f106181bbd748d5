//! Initial ramdisk: the earlier, single-directory ramdisk kept for the
//! boot path. It serves a fixed file list exactly as the tar-backed
//! ramdisk does and shares its machinery.

use vstd::prelude::*;

use crate::ramdisk::Ramdisk;
use crate::vfs::DirectoryEntry;
use crate::vfs::FileType;
use crate::vfs::Filesystem;
use crate::vfs::FilesystemError;
use crate::vfs::Inode;

verus! {

/// Only supports one level of directories.
pub struct Initrd {
    pub inner: Ramdisk,
}

impl Initrd {
    pub open spec fn entries(self) -> Seq<DirectoryEntry> {
        self.inner.entries()
    }

    pub open spec fn file_bytes(self, ino: u32) -> Seq<u8> {
        self.inner.file_bytes(ino)
    }

    pub open spec fn has_file(self, ino: u32) -> bool {
        self.inner.has_file(ino)
    }

    pub open spec fn dev_of(self) -> u32 {
        self.inner@.dev
    }

    /// Builds the initial ramdisk from named file contents; file `i` gets
    /// inode `i + 1` and the root directory (inode 0) lists every file.
    pub fn from_files(dev: u32, files: &Vec<(String, Vec<u8>)>) -> (r: Initrd)
        requires
            files@.len() < u32::MAX,
        ensures
            r.inv(),
            r.dev_of() == dev,
            r.entries().len() == files@.len(),
            forall|i: int|
                0 <= i < files@.len() ==> {
                    &&& (#[trigger] r.entries()[i]).name@ == files@[i].0@
                    &&& r.entries()[i].inode == i + 1
                    &&& r.entries()[i].dev == dev
                },
            forall|i: int| 0 <= i < files@.len() ==> #[trigger] r.has_file((i + 1) as u32),
            forall|i: int|
                0 <= i < files@.len() ==> #[trigger] r.file_bytes((i + 1) as u32) == files@[i].1@,
            r.spec_inode(dev, 0) == Result::<Inode, FilesystemError>::Ok(
                Inode {
                    dev,
                    inode: 0,
                    file_type: FileType::Directory,
                    size: 0,
                    major: Option::None,
                    minor: Option::None,
                },
            ),
            forall|i: int|
                0 <= i < files@.len() ==> #[trigger] r.spec_inode(dev, (i + 1) as u32)
                    == Result::<Inode, FilesystemError>::Ok(
                    Inode {
                        dev,
                        inode: (i + 1) as u32,
                        file_type: FileType::File,
                        size: files@[i].1@.len() as usize,
                        major: Option::None,
                        minor: Option::None,
                    },
                ),
    {
        let rd = Ramdisk::from_files(dev, files);
        let r = Initrd { inner: rd };
        proof {
            assert forall|i: int| 0 <= i < files@.len() implies #[trigger] r.has_file(
                (i + 1) as u32,
            ) by {
                assert(rd.has_file((i + 1) as u32));
            }
            assert forall|i: int| 0 <= i < files@.len() implies #[trigger] r.file_bytes(
                (i + 1) as u32,
            ) == files@[i].1@ by {
                assert(rd.has_file((i + 1) as u32));
                assert(rd.file_bytes((i + 1) as u32) == files@[i].1@);
            }
            assert forall|i: int| 0 <= i < files@.len() implies #[trigger] r.spec_inode(
                dev,
                (i + 1) as u32,
            ) == Result::<Inode, FilesystemError>::Ok(
                Inode {
                    dev,
                    inode: (i + 1) as u32,
                    file_type: FileType::File,
                    size: files@[i].1@.len() as usize,
                    major: Option::None,
                    minor: Option::None,
                },
            ) by {
                assert(rd.spec_inode(dev, (i + 1) as u32) == Result::<
                    Inode,
                    FilesystemError,
                >::Ok(
                    Inode {
                        dev,
                        inode: (i + 1) as u32,
                        file_type: FileType::File,
                        size: files@[i].1@.len() as usize,
                        major: Option::None,
                        minor: Option::None,
                    },
                ));
            }
        }
        r
    }
}

impl Filesystem for Initrd {
    open spec fn inv(&self) -> bool {
        self.inner.inv()
    }

    open spec fn spec_open(&self, inode: Inode) -> Result<(), FilesystemError> {
        self.inner.spec_open(inode)
    }

    open spec fn spec_close(&self, inode: Inode) -> Result<(), FilesystemError> {
        self.inner.spec_close(inode)
    }

    open spec fn spec_readdir(&self, inode: Inode) -> Result<Seq<DirectoryEntry>, FilesystemError> {
        self.inner.spec_readdir(inode)
    }

    open spec fn spec_inode(&self, dev: u32, ino: u32) -> Result<Inode, FilesystemError> {
        self.inner.spec_inode(dev, ino)
    }

    open spec fn read_post(
        &self,
        pre: Self,
        inode: Inode,
        offset: u64,
        count: usize,
        r: Result<Vec<u8>, FilesystemError>,
    ) -> bool {
        self.inner.read_post(pre.inner, inode, offset, count, r)
    }

    open spec fn write_post(
        &self,
        pre: Self,
        inode: Inode,
        offset: u64,
        data: Seq<u8>,
        r: Result<usize, FilesystemError>,
    ) -> bool {
        self.inner.write_post(pre.inner, inode, offset, data, r)
    }

    fn open(&self, inode: &Inode) -> (r: Result<(), FilesystemError>) {
        self.inner.open(inode)
    }

    fn close(&self, inode: &Inode) -> (r: Result<(), FilesystemError>) {
        self.inner.close(inode)
    }

    fn read(&mut self, inode: &Inode, offset: u64, count: usize) -> (r: Result<
        Vec<u8>,
        FilesystemError,
    >) {
        self.inner.read(inode, offset, count)
    }

    fn write(&mut self, inode: &Inode, offset: u64, data: &[u8]) -> (r: Result<
        usize,
        FilesystemError,
    >) {
        self.inner.write(inode, offset, data)
    }

    fn readdir(&self, inode: &Inode) -> (r: Result<Vec<DirectoryEntry>, FilesystemError>) {
        self.inner.readdir(inode)
    }

    fn inode(&self, dev: u32, ino: u32) -> (r: Result<Inode, FilesystemError>) {
        self.inner.inode(dev, ino)
    }
}

} // verus!
