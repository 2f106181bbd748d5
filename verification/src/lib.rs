//! Core of a small x86_64 kernel, modelled over plain values so that its
//! logic can be verified: physical frame allocation, per-process address
//! spaces, ELF loading, a virtual filesystem with a console device and a
//! tar-backed ramdisk, a FIFO scheduler, and the system-call layer.
//!
//! Hardware work (MMIO, port I/O, privileged registers, the context-switch
//! trampolines) is not part of this library: the functions here compute the
//! decisions and the new state, and an embedder performs the machine steps.

mod apic;
mod aspace;
mod console;
mod devfs;
mod elf;
mod initrd;
mod mounts;
mod pmm;
mod process;
mod ramdisk;
mod scheduler;
mod syscall;
mod vfs;

pub use apic::IoApic;
pub use apic::Lapic;
pub use apic::TimerDivideConfig;
pub use aspace::AddressSpace;
pub use aspace::PageFlags;
pub use console::Console;
pub use devfs::Devfs;
pub use apic::keyboard_gsi;
pub use elf::entry_point;
pub use elf::parse_program_headers;
pub use elf::LoadingError;
pub use elf::ProgramHeaderEntry;
pub use initrd::Initrd;
pub use mounts::read;
pub use mounts::MountedFilesystem;
pub use mounts::VirtualFileSystem;
pub use pmm::MemoryRegion;
pub use process::FileDescriptor;
pub use process::ProcessTable;
pub use process::UserProcess;
pub use ramdisk::Ramdisk;
pub use scheduler::Context;
pub use syscall::Kernel;
pub use syscall::SyscallOutcome;
pub use scheduler::Scheduler;
pub use scheduler::Thread;
pub use pmm::PhysicalMemoryManager;
pub use vfs::DirectoryEntry;
pub use vfs::FileType;
pub use vfs::Filesystem;
pub use vfs::FilesystemError;
pub use vfs::Inode;
