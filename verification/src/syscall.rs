//! System-call dispatch: userspace pointer validation, the implemented
//! call set, and the kernel state it operates on.
//!
//! The ABI follows Linux x86-64 numbering; errors return as negated errno
//! values in the range [-4095, -1]. Every userspace pointer is checked by
//! its sign bit: the upper canonical half is kernel space.

use vstd::prelude::*;

use crate::aspace::PageFlags;
use crate::aspace::PAGE_SIZE;
use crate::process::FileDescriptor;
use crate::process::ProcessTable;
use crate::process::UserProcess;
use crate::pmm::PhysicalMemoryManager;
use crate::scheduler::Scheduler;
use crate::scheduler::Thread;
use crate::mounts::VirtualFileSystem;
use crate::vfs::Filesystem;
use crate::vfs::FilesystemError;
use std::collections::BTreeMap;
use vstd::string::StrSliceExecFns;

verus! {

broadcast use vstd::laws_cmp::group_laws_cmp;

pub const EPERM: i64 = 1;
pub const ENOENT: i64 = 2;
pub const EBADF: i64 = 9;
pub const EAGAIN: i64 = 11;
pub const ENOMEM: i64 = 12;
pub const EFAULT: i64 = 14;
pub const EISDIR: i64 = 21;
pub const EINVAL: i64 = 22;
pub const ENOTTY: i64 = 25;
pub const E2BIG: i64 = 7;
pub const ENOSYS: i64 = 38;

pub const O_RDONLY: u32 = 0;
pub const O_WRONLY: u32 = 1;
pub const O_RDWR: u32 = 2;
pub const O_ACCMODE: u32 = 3;

pub const ARCH_SET_FS: u32 = 0x1002;

/// First kernel-space address: bit 63 set.
pub const KERNEL_HALF: u64 = 0x8000_0000_0000_0000;

/// The `-errno` encoding of an error, as user space reads it from `rax`.
pub open spec fn spec_err(e: int) -> u64 {
    (0x1_0000_0000_0000_0000 - e) as u64
}

/// Encodes `-errno` for the return register.
pub fn err_ret(e: i64) -> (r: u64)
    requires
        1 <= e <= 4095,
    ensures
        r == spec_err(e as int),
{
    let v: u64 = e as u64;
    0xffff_ffff_ffff_ffffu64 - v + 1
}

/// True when an address lies in user space: since this is a higher-half
/// kernel, user addresses have bit 63 clear.
pub fn check_addr(addr: u64) -> (r: bool)
    ensures
        r == (addr < KERNEL_HALF),
{
    proof {
        assert((addr & 0x8000_0000_0000_0000u64 == 0u64) == (addr < 0x8000_0000_0000_0000u64))
            by (bit_vector);
    }
    addr & 0x8000_0000_0000_0000u64 == 0
}

/// True when the whole buffer `[addr, addr + len)` lies in user space;
/// both endpoints are checked. A zero-length buffer with a valid base is
/// accepted.
pub fn check_buffer(addr: u64, len: u64) -> (r: bool)
    ensures
        r == (addr < KERNEL_HALF && addr + len < KERNEL_HALF),
{
    if !check_addr(addr) {
        return false;
    }
    if len >= KERNEL_HALF {
        return false;
    }
    check_addr(addr + len)
}

/// What a system call asks the kernel to do next.
#[derive(PartialEq, Eq, Structural, Clone, Copy, Debug)]
pub enum SyscallOutcome {
    /// Return this value in `rax`.
    Ret(u64),
    /// The call must wait for input: block the thread and retry when it
    /// is woken.
    Block,
    /// The process exited with this status; the thread is parked.
    Exit(i64),
    /// A new program was loaded: re-enter user space at the new entry.
    Exec,
}

/// The errno a filesystem error maps to at the syscall boundary.
pub open spec fn spec_fs_errno(e: FilesystemError) -> int {
    match e {
        FilesystemError::NotFound => ENOENT as int,
        FilesystemError::WrongType => EINVAL as int,
        FilesystemError::UnknownDevice => EINVAL as int,
        FilesystemError::WouldBlock => EAGAIN as int,
    }
}

fn fs_errno(e: FilesystemError) -> (r: i64)
    ensures
        r == spec_fs_errno(e),
        1 <= r <= 4095,
{
    match e {
        FilesystemError::NotFound => ENOENT,
        FilesystemError::WrongType => EINVAL,
        FilesystemError::UnknownDevice => EINVAL,
        FilesystemError::WouldBlock => EAGAIN,
    }
}

/// The NUL-terminated byte string at `addr` in address space `v`,
/// scanning at most `fuel` bytes: nothing when a page is unmapped or no
/// NUL appears within the fuel.
pub open spec fn spec_cstr(v: crate::aspace::AddressSpaceView, addr: u64, fuel: nat) -> Option<
    Seq<u8>,
>
    decreases fuel,
{
    if fuel == 0 {
        Option::None
    } else {
        match v.byte_at(addr) {
            Option::None => Option::None,
            Option::Some(b) => if b == 0 {
                Option::Some(Seq::empty())
            } else {
                match spec_cstr(v, (addr + 1) as u64, (fuel - 1) as nat) {
                    Option::None => Option::None,
                    Option::Some(rest) => Option::Some(seq![b] + rest),
                }
            },
        }
    }
}

/// The argument strings reachable from slot `i` of an argv array at
/// `base`: the walk ends at a NUL pointer or after 256 slots, and fails
/// on an unreadable slot, a kernel-half pointer, or an unreadable string.
pub open spec fn spec_argv(v: crate::aspace::AddressSpaceView, base: u64, i: int) -> Option<
    Seq<Seq<u8>>,
>
    decreases 256 - i,
{
    if i >= 256 {
        Option::Some(Seq::empty())
    } else if !(base + 8 * i < KERNEL_HALF && base + 8 * i + 8 < KERNEL_HALF) {
        Option::None
    } else {
        match v.bytes_at((base + 8 * i) as u64, 8) {
            Option::None => Option::None,
            Option::Some(pb) => {
                let ptr = vstd::bytes::spec_u64_from_le_bytes(pb);
                if ptr == 0 {
                    Option::Some(Seq::empty())
                } else if ptr >= KERNEL_HALF - 4096 {
                    Option::None
                } else {
                    match spec_cstr(v, ptr, 4096) {
                        Option::None => Option::None,
                        Option::Some(s) => match spec_argv(v, base, i + 1) {
                            Option::None => Option::None,
                            Option::Some(rest) => Option::Some(seq![s] + rest),
                        },
                    }
                }
            },
        }
    }
}

/// The whole kernel state the system-call layer works on. The boot path
/// builds one; the embedder drives it with syscalls, timer ticks and
/// keyboard scancodes.
pub struct Kernel {
    pub pmm: PhysicalMemoryManager,
    pub vfs: VirtualFileSystem,
    pub processes: ProcessTable,
    /// Shared file descriptors, by handle; fork shares handles so offsets
    /// advance for parent and child alike.
    pub descriptors: BTreeMap<u64, FileDescriptor>,
    pub next_handle: u64,
    pub threads: BTreeMap<u32, Thread>,
    pub scheduler: Scheduler,
    pub next_pid: u32,
    pub next_tid: u32,
    /// The FS base the last arch_prctl installed.
    pub fs_base: u64,
    /// Frames backing the fixed kernel-heap window, taken at boot.
    pub heap_frames: Vec<u64>,
}

/// Process `p` owns frame `f`.
#[verifier::inline]
pub open spec fn owns_frame(p: UserProcess, f: u64) -> bool {
    p.aspace@.owned.contains(f)
}

impl Kernel {
    /// Every frame a process owns is marked used by the allocator.
    pub open spec fn frames_marked(&self) -> bool {
        forall|pid: u32, f: u64|
            self.processes@.contains_key(pid) && #[trigger] owns_frame(self.processes@[pid], f)
                ==> self.pmm.frame_in_range(f as int) && self.pmm.frame_used(f as int)
    }

    /// Frame lists of distinct processes are pairwise disjoint: no frame
    /// is owned twice.
    pub open spec fn frames_disjoint(&self) -> bool {
        forall|pid1: u32, pid2: u32, f: u64|
            self.processes@.contains_key(pid1) && self.processes@.contains_key(pid2) && pid1 != pid2
                && #[trigger] owns_frame(self.processes@[pid1], f) ==> !#[trigger] owns_frame(
                self.processes@[pid2],
                f,
            )
    }

    pub open spec fn inv(&self) -> bool {
        &&& self.pmm.wf()
        &&& self.vfs.inv()
        &&& forall|pid: u32|
            self.processes@.contains_key(pid) ==> ((#[trigger] self.processes@[pid]).inv()
                && self.processes@[pid].pid == pid)
        &&& self.frames_marked()
        &&& self.frames_disjoint()
        &&& forall|pid: u32|
            self.processes@.contains_key(pid) ==> self.threads@.contains_key(
                (#[trigger] self.processes@[pid]).thread,
            )
        &&& forall|tid: u32|
            self.threads@.contains_key(tid) ==> (#[trigger] self.threads@[tid]).wf()
        &&& forall|pid: u32| #[trigger] self.processes@.contains_key(pid) ==> pid < self.next_pid
        &&& forall|tid: u32| #[trigger] self.threads@.contains_key(tid) ==> tid < self.next_tid
        &&& forall|f: u64|
            #[trigger] self.heap_frames@.contains(f) ==> self.pmm.frame_in_range(f as int)
                && self.pmm.frame_used(f as int)
        &&& forall|pid: u32, f: u64|
            self.processes@.contains_key(pid) && #[trigger] owns_frame(self.processes@[pid], f)
                ==> !self.heap_frames@.contains(f)
    }
}

/// Law: the backing frame of every mapped user page of a process appears
/// in that process's frame list.
pub proof fn lemma_mapped_frame_owned(k: Kernel, pid: u32, page: u64)
    requires
        k.inv(),
        k.processes@.contains_key(pid),
        k.processes@[pid].aspace@.pages.contains_key(page),
    ensures
        owns_frame(k.processes@[pid], k.processes@[pid].aspace@.pages[page].frame),
{
    assert(k.processes@[pid].inv());
}

/// Law: a frame owned by one process is owned by no other, and no
/// process's frame list meets the kernel heap's frames.
pub proof fn lemma_frame_lists_disjoint(k: Kernel, pid1: u32, pid2: u32, f: u64)
    requires
        k.inv(),
        k.processes@.contains_key(pid1),
        k.processes@.contains_key(pid2),
        pid1 != pid2,
        owns_frame(k.processes@[pid1], f),
    ensures
        !owns_frame(k.processes@[pid2], f),
        !k.heap_frames@.contains(f),
{
}

impl Kernel {
    /// Adjusts the program break. A zero, kernel-half, or below-initial
    /// address is a no-op that reports the current break. Growing maps
    /// fresh zeroed pages (no-execute, writable, user) for every page up
    /// to the new break, skipping the already-mapped first page; shrinking
    /// unmaps and frees down to, but not including, the page of the new
    /// break. The new break is only committed when the mapping changes
    /// succeed; running out of memory reports `-ENOMEM`.
    pub fn sys_brk(&mut self, pid: u32, addr: u64) -> (r: u64)
        requires
            old(self).inv(),
            old(self).processes@.contains_key(pid),
        ensures
            final(self).inv(),
            final(self).processes@.contains_key(pid),
            ({
                let p = old(self).processes@[pid];
                let pnew = final(self).processes@[pid];
                &&& (addr == 0 || addr < p.brk_initial || addr >= KERNEL_HALF) ==> (r == p.brk
                    && pnew.brk == p.brk && pnew.brk_initial == p.brk_initial && pnew.aspace@
                    == p.aspace@)
                &&& !(addr == 0 || addr < p.brk_initial || addr >= KERNEL_HALF) ==> {
                    &&& (r == addr || r == spec_err(ENOMEM as int))
                    &&& r == spec_err(ENOMEM as int) ==> forall|g: int|
                        final(self).pmm.frame_in_range(g) ==> final(self).pmm.frame_used(g)
                    &&& r == addr ==> {
                        &&& pnew.brk == addr
                        &&& pnew.brk_initial == p.brk_initial
                        &&& (addr >= p.brk ==> forall|pg: u64|
                            p.brk / PAGE_SIZE < pg <= addr / PAGE_SIZE
                                ==> #[trigger] pnew.aspace@.pages.contains_key(pg))
                        &&& (addr >= p.brk ==> forall|pg: u64|
                            p.brk / PAGE_SIZE < pg <= addr / PAGE_SIZE
                                && !p.aspace@.pages.contains_key(pg)
                                ==> (#[trigger] pnew.aspace@.pages[pg]).bytes == Seq::new(
                                PAGE_SIZE as nat,
                                |i: int| 0u8,
                            ))
                        &&& (addr >= p.brk ==> forall|pg: u64|
                            p.brk / PAGE_SIZE < pg <= addr / PAGE_SIZE
                                && !p.aspace@.pages.contains_key(pg)
                                ==> (#[trigger] pnew.aspace@.pages[pg]).flags == (PageFlags {
                                writable: true,
                                user: true,
                                no_execute: true,
                            }))
                        &&& (addr >= p.brk ==> forall|f: u64|
                            p.aspace@.owned.contains(f)
                                ==> #[trigger] pnew.aspace@.owned.contains(f))
                        &&& (addr >= p.brk ==> forall|pg: u64|
                            p.brk / PAGE_SIZE < pg <= addr / PAGE_SIZE
                                ==> pnew.aspace@.owned.contains(
                                (#[trigger] pnew.aspace@.pages[pg]).frame,
                            ))
                        &&& (addr < p.brk ==> forall|pg: u64|
                            addr / PAGE_SIZE < pg <= p.brk / PAGE_SIZE
                                ==> !#[trigger] pnew.aspace@.pages.contains_key(pg))
                        &&& (addr < p.brk ==> forall|pg: u64|
                            !(addr / PAGE_SIZE < pg <= p.brk / PAGE_SIZE) ==> ((
                            #[trigger] pnew.aspace@.pages.contains_key(pg))
                                == p.aspace@.pages.contains_key(pg) && (p.aspace@.pages.contains_key(
                                pg,
                            ) ==> pnew.aspace@.pages[pg] == p.aspace@.pages[pg])))
                        &&& (addr < p.brk ==> forall|pg: u64|
                            addr / PAGE_SIZE < pg <= p.brk / PAGE_SIZE
                                && #[trigger] p.aspace@.pages.contains_key(pg)
                                ==> !final(self).pmm.frame_used(p.aspace@.pages[pg].frame as int))
                    }
                    &&& r != addr ==> pnew.brk == p.brk
                }
            }),
    {
        let mut p = match self.processes.take_process(pid) {
            Option::None => {
                proof {
                    assert(false);
                }
                return 0;
            },
            Option::Some(p) => p,
        };
        if addr == 0 || addr < p.brk_initial || !check_addr(addr) {
            let cur = p.brk;
            self.processes.add_process(p);
            proof {
                assert(self.processes@ =~= old(self).processes@);
            }
            return cur;
        }
        let old_brk = p.brk;
        if addr > old_brk {
            // grow: map fresh zero pages after the current break's page
            let first: u64 = old_brk / 4096 + 1;
            let last: u64 = addr / 4096;
            let mut pg: u64 = first;
            proof {
                assert(old_brk / 4096 <= addr / 4096) by (nonlinear_arith)
                    requires old_brk <= addr, old_brk >= 0;
            }
            while pg <= last
                invariant
                    first <= pg <= last + 1,
                    last < KERNEL_HALF,
                    addr != 0,
                    addr < KERNEL_HALF,
                    addr >= old(self).processes@[pid].brk_initial,
                    p.inv(),
                    self.pmm.wf(),
                    p.pid == pid,
                    p.thread == old(self).processes@[pid].thread,
                    p.brk == old(self).processes@[pid].brk,
                    p.brk_initial == old(self).processes@[pid].brk_initial,
                    self.processes@ == old(self).processes@.remove(pid),
                    self.vfs == old(self).vfs,
                    self.threads == old(self).threads,
                    self.descriptors == old(self).descriptors,
                    self.next_handle == old(self).next_handle,
                    self.scheduler == old(self).scheduler,
                    self.next_pid == old(self).next_pid,
                    self.next_tid == old(self).next_tid,
                    self.fs_base == old(self).fs_base,
                    self.heap_frames == old(self).heap_frames,
                    self.pmm.num_frames() == old(self).pmm.num_frames(),
                    old(self).inv(),
                    old(self).processes@.contains_key(pid),
                    forall|f: u64|
                        owns_frame(p, f) ==> self.pmm.frame_in_range(f as int)
                            && self.pmm.frame_used(f as int),
                    forall|f: u64|
                        owns_frame(p, f) && !owns_frame(old(self).processes@[pid], f) ==> !old(
                            self,
                        ).pmm.frame_used(f as int),
                    forall|g: int|
                        old(self).pmm.frame_in_range(g) && !owns_frame(p, g as u64) && !owns_frame(
                            old(self).processes@[pid],
                            g as u64,
                        ) ==> self.pmm.frame_used(g) == old(self).pmm.frame_used(g),
                    forall|q: u64|
                        first <= q < pg ==> #[trigger] p.aspace@.pages.contains_key(q),
                    forall|q: u64|
                        first <= q < pg && !old(self).processes@[pid].aspace@.pages.contains_key(q)
                            ==> (#[trigger] p.aspace@.pages[q]).bytes == Seq::new(
                            PAGE_SIZE as nat,
                            |i: int| 0u8,
                        ),
                    forall|q: u64|
                        first <= q < pg && !old(self).processes@[pid].aspace@.pages.contains_key(q)
                            ==> (#[trigger] p.aspace@.pages[q]).flags == (PageFlags {
                            writable: true,
                            user: true,
                            no_execute: true,
                        }),
                    forall|f: u64|
                        old(self).processes@[pid].aspace@.owned.contains(f)
                            ==> #[trigger] p.aspace@.owned.contains(f),
                    forall|q: u64|
                        old(self).processes@[pid].aspace@.pages.contains_key(q)
                            ==> #[trigger] p.aspace@.pages.contains_key(q) && p.aspace@.pages[q]
                                == old(self).processes@[pid].aspace@.pages[q],
                    forall|q: u64|
                        #[trigger] p.aspace@.pages.contains_key(q) ==> (old(
                            self,
                        ).processes@[pid].aspace@.pages.contains_key(q) || (first <= q < pg)),
                decreases last + 1 - pg,
            {
                let ghost pre_owned = p.aspace@.owned;
                let ghost pre_pmm = self.pmm;
                let ghost pre_p2 = p;
                if !p.aspace.is_mapped(pg) {
                    match p.allocate_user_page(&mut self.pmm, pg, true) {
                        Option::None => {
                            proof {
                                assert(self.pmm@ == pre_pmm@);
                                assert forall|f: u64| owns_frame(p, f) implies
                                    self.pmm.frame_in_range(f as int) && self.pmm.frame_used(
                                    f as int,
                                ) by {
                                    assert(pre_pmm.frame_in_range(f as int) && pre_pmm.frame_used(
                                        f as int,
                                    ));
                                }
                                assert forall|g: int| self.pmm.frame_in_range(g) implies
                                    self.pmm.frame_used(g) by {}
                            }
                            self.processes.add_process(p);
                            proof {
                                brk_restore_inv(*old(self), *self, pid);
                            }
                            return err_ret(ENOMEM);
                        },
                        Option::Some(fr) => {
                            proof {
                                lemma_owned_after_alloc(pre_owned, p.aspace@.owned, fr);
                                assert forall|f: u64| owns_frame(p, f) implies
                                    self.pmm.frame_in_range(f as int) && self.pmm.frame_used(
                                    f as int,
                                ) by {
                                    if pre_owned.contains(f) {
                                        assert(pre_pmm.frame_used(f as int));
                                        assert(f != fr);
                                        assert(self.pmm.frame_used(f as int));
                                    } else {
                                        assert(f == fr);
                                    }
                                }
                                assert forall|f: u64|
                                    owns_frame(p, f) && !owns_frame(
                                        old(self).processes@[pid],
                                        f,
                                    ) implies !old(self).pmm.frame_used(f as int) by {
                                    if pre_owned.contains(f) {
                                        assert(owns_frame(pre_p2, f));
                                    } else {
                                        assert(f == fr);
                                        assert(!pre_pmm.frame_used(f as int));
                                        if old(self).pmm.frame_used(f as int) {
                                            assert(false);
                                        }
                                    }
                                }
                                assert forall|g: int|
                                    old(self).pmm.frame_in_range(g) && !owns_frame(p, g as u64)
                                        && !owns_frame(old(self).processes@[pid], g as u64)
                                        implies self.pmm.frame_used(g) == old(self).pmm.frame_used(
                                        g,
                                    ) by {
                                    assert(g != fr) by {
                                        if g == fr {
                                            assert(owns_frame(p, fr));
                                        }
                                    }
                                    assert(self.pmm.frame_used(g) == pre_pmm.frame_used(g));
                                }
                                assert forall|q: u64| first <= q < pg + 1 implies
                                    #[trigger] p.aspace@.pages.contains_key(q) by {
                                    if q < pg {
                                        assert(pre_p2.aspace@.pages.contains_key(q));
                                    }
                                }
                                assert forall|q: u64|
                                    first <= q < pg + 1 && !old(
                                        self,
                                    ).processes@[pid].aspace@.pages.contains_key(q) implies (
                                #[trigger] p.aspace@.pages[q]).bytes == Seq::new(
                                    PAGE_SIZE as nat,
                                    |i: int| 0u8,
                                ) by {
                                    if q < pg {
                                        assert(pre_p2.aspace@.pages.contains_key(q));
                                        assert(p.aspace@.pages[q] == pre_p2.aspace@.pages[q]);
                                    }
                                }
                                assert forall|q: u64|
                                    old(self).processes@[pid].aspace@.pages.contains_key(q)
                                        implies #[trigger] p.aspace@.pages.contains_key(q)
                                        && p.aspace@.pages[q] == old(
                                        self,
                                    ).processes@[pid].aspace@.pages[q] by {
                                    assert(pre_p2.aspace@.pages.contains_key(q));
                                    assert(q != pg);
                                }
                            }
                        },
                    }
                }
                pg = pg + 1;
            }
        }
        if addr < old_brk {
            // shrink: unmap and free down to, but not including, the page
            // of the new break
            let first: u64 = addr / 4096 + 1;
            let last: u64 = old_brk / 4096;
            let mut pg: u64 = first;
            proof {
                assert(addr / 4096 <= old_brk / 4096) by (nonlinear_arith)
                    requires addr <= old_brk, addr >= 0;
            }
            while pg <= last
                invariant
                    first <= pg <= last + 1,
                    last < KERNEL_HALF,
                    addr != 0,
                    addr < KERNEL_HALF,
                    addr >= old(self).processes@[pid].brk_initial,
                    p.inv(),
                    self.pmm.wf(),
                    p.pid == pid,
                    p.thread == old(self).processes@[pid].thread,
                    p.brk == old(self).processes@[pid].brk,
                    p.brk_initial == old(self).processes@[pid].brk_initial,
                    self.processes@ == old(self).processes@.remove(pid),
                    self.vfs == old(self).vfs,
                    self.threads == old(self).threads,
                    self.descriptors == old(self).descriptors,
                    self.next_handle == old(self).next_handle,
                    self.scheduler == old(self).scheduler,
                    self.next_pid == old(self).next_pid,
                    self.next_tid == old(self).next_tid,
                    self.fs_base == old(self).fs_base,
                    self.heap_frames == old(self).heap_frames,
                    self.pmm.num_frames() == old(self).pmm.num_frames(),
                    old(self).inv(),
                    old(self).processes@.contains_key(pid),
                    forall|f: u64|
                        owns_frame(p, f) ==> self.pmm.frame_in_range(f as int)
                            && self.pmm.frame_used(f as int),
                    forall|f: u64|
                        owns_frame(p, f) ==> owns_frame(old(self).processes@[pid], f),
                    forall|g: int|
                        old(self).pmm.frame_in_range(g) && !owns_frame(p, g as u64) && !owns_frame(
                            old(self).processes@[pid],
                            g as u64,
                        ) ==> self.pmm.frame_used(g) == old(self).pmm.frame_used(g),
                    forall|q: u64|
                        first <= q < pg ==> !#[trigger] p.aspace@.pages.contains_key(q),
                    forall|q: u64|
                        !(first <= q < pg) ==> ((#[trigger] p.aspace@.pages.contains_key(q)) == old(
                            self,
                        ).processes@[pid].aspace@.pages.contains_key(q) && (old(
                            self,
                        ).processes@[pid].aspace@.pages.contains_key(q) ==> p.aspace@.pages[q]
                            == old(self).processes@[pid].aspace@.pages[q])),
                    forall|q: u64|
                        first <= q < pg && #[trigger] old(
                            self,
                        ).processes@[pid].aspace@.pages.contains_key(q) ==> !self.pmm.frame_used(
                            old(self).processes@[pid].aspace@.pages[q].frame as int,
                        ),
                decreases last + 1 - pg,
            {
                let ghost pre_p = p;
                let ghost pre_pmm = self.pmm;
                let was = p.unmap_page(&mut self.pmm, pg);
                proof {
                    if !was {
                        assert(p.aspace@ == pre_p.aspace@);
                        assert(self.pmm@ == pre_pmm@);
                        assert forall|f: u64| owns_frame(p, f) implies self.pmm.frame_in_range(
                            f as int,
                        ) && self.pmm.frame_used(f as int) by {
                            assert(owns_frame(pre_p, f));
                            assert(pre_pmm.frame_in_range(f as int) && pre_pmm.frame_used(
                                f as int,
                            ));
                        }
                        assert forall|f: u64| owns_frame(p, f) implies owns_frame(
                            old(self).processes@[pid],
                            f,
                        ) by {
                            assert(owns_frame(pre_p, f));
                        }
                        assert forall|g: int|
                            old(self).pmm.frame_in_range(g) && !owns_frame(p, g as u64)
                                && !owns_frame(old(self).processes@[pid], g as u64)
                                implies self.pmm.frame_used(g) == old(self).pmm.frame_used(g) by {
                            assert(!owns_frame(pre_p, g as u64));
                            assert(self.pmm.frame_used(g) == pre_pmm.frame_used(g));
                        }
                    }
                    if was {
                        let fr0 = pre_p.aspace@.pages[pg].frame;
                        lemma_owned_after_unmap(pre_p.aspace@.owned, p.aspace@.owned, fr0);
                        assert(old(self).processes@[pid].aspace@.pages.contains_key(pg));
                        assert(pre_p.aspace@.pages[pg] == old(
                            self,
                        ).processes@[pid].aspace@.pages[pg]);
                        assert forall|q: u64|
                            !(first <= q < pg + 1) implies ((
                        #[trigger] p.aspace@.pages.contains_key(q)) == old(
                            self,
                        ).processes@[pid].aspace@.pages.contains_key(q) && (old(
                            self,
                        ).processes@[pid].aspace@.pages.contains_key(q) ==> p.aspace@.pages[q]
                            == old(self).processes@[pid].aspace@.pages[q])) by {
                            assert(p.aspace@.pages.contains_key(q) == pre_p.aspace@.pages.contains_key(
                                q,
                            ));
                        }
                        assert forall|q: u64|
                            first <= q < pg + 1 && #[trigger] old(
                                self,
                            ).processes@[pid].aspace@.pages.contains_key(q)
                            implies !self.pmm.frame_used(
                            old(self).processes@[pid].aspace@.pages[q].frame as int,
                        ) by {
                            let fq = old(self).processes@[pid].aspace@.pages[q].frame;
                            if q < pg {
                                assert(!pre_pmm.frame_used(fq as int));
                                assert(old(self).processes@[pid].inv());
                                assert(fq != fr0) by {
                                    if fq == fr0 {
                                        assert(old(self).processes@[pid].aspace@.pages[q].frame
                                            == old(
                                            self,
                                        ).processes@[pid].aspace@.pages[pg].frame);
                                    }
                                }
                                assert(self.pmm.frame_used(fq as int) == pre_pmm.frame_used(
                                    fq as int,
                                ));
                            } else {
                                assert(q == pg);
                                assert(fq == fr0);
                            }
                        }
                        assert forall|f: u64| owns_frame(p, f) implies self.pmm.frame_in_range(
                            f as int,
                        ) && self.pmm.frame_used(f as int) by {
                            assert(owns_frame(pre_p, f));
                            assert(f != fr0);
                            assert(self.pmm.frame_used(f as int) == pre_pmm.frame_used(f as int));
                        }
                        assert forall|g: int|
                            old(self).pmm.frame_in_range(g) && !owns_frame(p, g as u64)
                                && !owns_frame(old(self).processes@[pid], g as u64)
                                implies self.pmm.frame_used(g) == old(self).pmm.frame_used(g) by {
                            assert(g != fr0) by {
                                if g == fr0 {
                                    assert(owns_frame(pre_p, fr0));
                                    assert(owns_frame(old(self).processes@[pid], fr0));
                                }
                            }
                            assert(self.pmm.frame_used(g) == pre_pmm.frame_used(g));
                        }
                        assert forall|f: u64| owns_frame(p, f) implies owns_frame(
                            old(self).processes@[pid],
                            f,
                        ) by {
                            assert(owns_frame(pre_p, f));
                        }
                    }
                }
                pg = pg + 1;
            }
        }
        p.brk = addr;
        self.processes.add_process(p);
        proof {
            brk_restore_inv(*old(self), *self, pid);
        }
        addr
    }
}

/// The kernel invariant after `sys_brk` puts the process back.
proof fn brk_restore_inv(k0: Kernel, k1: Kernel, pid: u32)
    requires
        k0.inv(),
        k1.heap_frames == k0.heap_frames,
        k1.next_pid == k0.next_pid,
        k1.next_tid == k0.next_tid,
        k0.processes@.contains_key(pid),
        k1.processes@ == k0.processes@.remove(pid).insert(pid, k1.processes@[pid]),
        k1.processes@.contains_key(pid),
        (#[trigger] k1.processes@[pid]).inv(),
        k1.processes@[pid].pid == pid,
        k1.processes@[pid].thread == k0.processes@[pid].thread,
        k1.pmm.wf(),
        k1.pmm.num_frames() == k0.pmm.num_frames(),
        k1.vfs == k0.vfs,
        k1.threads == k0.threads,
        forall|f: u64|
            #[trigger] owns_frame(k1.processes@[pid], f) ==> k1.pmm.frame_in_range(f as int)
                && k1.pmm.frame_used(f as int),
        forall|f: u64|
            #[trigger] owns_frame(k1.processes@[pid], f) && !owns_frame(k0.processes@[pid], f)
                ==> !k0.pmm.frame_used(f as int),
        forall|g: int|
            k0.pmm.frame_in_range(g) && k0.pmm.frame_used(g) && !owns_frame(
                k0.processes@[pid],
                g as u64,
            ) ==> k1.pmm.frame_used(g),
    ensures
        k1.inv(),
{
    assert forall|pid2: u32|
        pid2 != pid implies (k1.processes@.contains_key(pid2) == k0.processes@.contains_key(pid2))
        by {}
    assert forall|pid2: u32|
        pid2 != pid && k0.processes@.contains_key(pid2) implies #[trigger] k1.processes@[pid2]
        == k0.processes@[pid2] by {}
    lemma_put_back_keeps_inv_changed(k0, k1, pid);
}

/// Putting a changed process back keeps the kernel invariant, provided
/// its current frames are marked used, frames it gained were free before,
/// and frames owned by no version of it kept their allocation bit.
proof fn lemma_put_back_keeps_inv_changed(k0: Kernel, k1: Kernel, pid: u32)
    requires
        k0.inv(),
        k1.heap_frames == k0.heap_frames,
        k1.next_pid == k0.next_pid,
        k1.next_tid == k0.next_tid,
        k0.processes@.contains_key(pid),
        k1.processes@.contains_key(pid),
        (#[trigger] k1.processes@[pid]).inv(),
        k1.processes@[pid].pid == pid,
        k1.processes@[pid].thread == k0.processes@[pid].thread,
        forall|pid2: u32|
            pid2 != pid ==> (k1.processes@.contains_key(pid2) == k0.processes@.contains_key(pid2)),
        forall|pid2: u32|
            pid2 != pid && k0.processes@.contains_key(pid2) ==> #[trigger] k1.processes@[pid2]
                == k0.processes@[pid2],
        k1.pmm.wf(),
        k1.pmm.num_frames() == k0.pmm.num_frames(),
        k1.vfs.inv(),
        forall|t: u32| k1.threads@.contains_key(t) == k0.threads@.contains_key(t),
        forall|t: u32|
            k1.threads@.contains_key(t) ==> (#[trigger] k1.threads@[t]).wf(),
        forall|f: u64|
            #[trigger] owns_frame(k1.processes@[pid], f) ==> k1.pmm.frame_in_range(f as int)
                && k1.pmm.frame_used(f as int),
        forall|f: u64|
            #[trigger] owns_frame(k1.processes@[pid], f) && !owns_frame(k0.processes@[pid], f)
                ==> !k0.pmm.frame_used(f as int),
        forall|g: int|
            k0.pmm.frame_in_range(g) && k0.pmm.frame_used(g) && !owns_frame(
                k0.processes@[pid],
                g as u64,
            ) ==> k1.pmm.frame_used(g),
    ensures
        k1.inv(),
{
    assert forall|pid2: u32, f: u64|
        k1.processes@.contains_key(pid2) && #[trigger] owns_frame(k1.processes@[pid2], f)
            implies k1.pmm.frame_in_range(f as int) && k1.pmm.frame_used(f as int) by {
        if pid2 != pid {
            assert(owns_frame(k0.processes@[pid2], f));
            assert(k0.pmm.frame_used(f as int) && k0.pmm.frame_in_range(f as int));
            assert(!owns_frame(k0.processes@[pid], f));
            if owns_frame(k1.processes@[pid], f) {
                assert(!k0.pmm.frame_used(f as int));
                assert(false);
            }
        }
    }
    assert forall|pid1: u32, pid2: u32, f: u64|
        k1.processes@.contains_key(pid1) && k1.processes@.contains_key(pid2) && pid1 != pid2
            && #[trigger] owns_frame(k1.processes@[pid1], f) implies !#[trigger] owns_frame(
        k1.processes@[pid2],
        f,
    ) by {
        if pid1 == pid {
            if owns_frame(k0.processes@[pid], f) {
                assert(!owns_frame(k0.processes@[pid2], f));
            } else {
                if owns_frame(k1.processes@[pid2], f) {
                    assert(owns_frame(k0.processes@[pid2], f));
                    assert(k0.pmm.frame_used(f as int));
                    assert(!k0.pmm.frame_used(f as int));
                }
            }
        } else if pid2 == pid {
            assert(owns_frame(k0.processes@[pid1], f));
            assert(k0.pmm.frame_used(f as int));
            if owns_frame(k1.processes@[pid], f) {
                if owns_frame(k0.processes@[pid], f) {
                    assert(!owns_frame(k0.processes@[pid1], f));
                    assert(false);
                } else {
                    assert(!k0.pmm.frame_used(f as int));
                    assert(false);
                }
            }
        } else {
            assert(owns_frame(k0.processes@[pid1], f));
            assert(!owns_frame(k0.processes@[pid2], f));
        }
    }
    assert forall|f: u64| #[trigger] k1.heap_frames@.contains(f) implies k1.pmm.frame_in_range(
        f as int,
    ) && k1.pmm.frame_used(f as int) by {
        assert(k0.pmm.frame_used(f as int));
        assert(!owns_frame(k0.processes@[pid], f));
    }
    assert forall|pid2: u32, f: u64|
        k1.processes@.contains_key(pid2) && #[trigger] owns_frame(k1.processes@[pid2], f)
            implies !k1.heap_frames@.contains(f) by {
        if pid2 == pid {
            if k1.heap_frames@.contains(f) {
                if owns_frame(k0.processes@[pid], f) {
                    assert(false);
                } else {
                    assert(!k0.pmm.frame_used(f as int));
                    assert(k0.pmm.frame_used(f as int));
                }
            }
        } else {
            assert(owns_frame(k0.processes@[pid2], f));
        }
    }
}

/// Frames owned after a page allocation: the fresh frame plus the old
/// ones.
proof fn lemma_owned_after_alloc(owned0: Seq<u64>, owned1: Seq<u64>, fr: u64)
    requires
        owned1 == owned0.push(fr),
    ensures
        forall|f: u64| owned1.contains(f) ==> (owned0.contains(f) || f == fr),
        forall|f: u64| owned0.contains(f) ==> owned1.contains(f),
        owned1.contains(fr),
{
    assert forall|f: u64| owned1.contains(f) implies (owned0.contains(f) || f == fr) by {
        let j = choose|j: int| 0 <= j < owned1.len() && owned1[j] == f;
        if j < owned1.len() - 1 {
            assert(owned0[j] == f);
        }
    }
    assert forall|f: u64| owned0.contains(f) implies owned1.contains(f) by {
        let j = choose|j: int| 0 <= j < owned0.len() && owned0[j] == f;
        assert(owned1[j] == f);
    }
    assert(owned1[owned1.len() - 1] == fr);
}

/// Frames owned after an unmap are among those owned before, and the
/// freed frame is owned no more.
proof fn lemma_owned_after_unmap(owned0: Seq<u64>, owned1: Seq<u64>, frame: u64)
    requires
        owned1.to_multiset() == owned0.to_multiset().remove(frame),
        owned0.no_duplicates(),
    ensures
        forall|f: u64| owned1.contains(f) ==> owned0.contains(f),
        !owned1.contains(frame),
{
    broadcast use vstd::seq_lib::group_to_multiset_ensures;
    broadcast use vstd::multiset::group_multiset_axioms;

    assert forall|f: u64| owned1.contains(f) implies owned0.contains(f) by {
        assert(owned1.to_multiset().count(f) > 0);
        assert(owned0.to_multiset().count(f) > 0);
    }
    owned0.lemma_multiset_has_no_duplicates();
    if owned1.contains(frame) {
        assert(owned1.to_multiset().count(frame) > 0);
        assert(owned0.to_multiset().count(frame) == 1);
        assert(false);
    }
}


impl Kernel {
    /// ioctl: no terminal settings exist; everything is `-ENOTTY`.
    pub fn sys_ioctl(&mut self) -> (r: u64)
        ensures
            r == spec_err(ENOTTY as int),
            *final(self) == *old(self),
    {
        err_ret(ENOTTY)
    }

    /// close is a no-op returning 0 in this kernel: the descriptor stays
    /// in the table. A known limitation of this core.
    pub fn sys_close(&mut self, fd: u32) -> (r: u64)
        ensures
            r == 0,
            *final(self) == *old(self),
    {
        0
    }

    /// arch_prctl: ARCH_SET_FS records the FS base after address
    /// validation; any other operation is `-EINVAL`.
    pub fn sys_arch_prctl(&mut self, op: u32, addr: u64) -> (r: u64)
        requires
            old(self).inv(),
        ensures
            final(self).inv(),
            op != ARCH_SET_FS ==> (r == spec_err(EINVAL as int) && *final(self) == *old(self)),
            op == ARCH_SET_FS && addr >= KERNEL_HALF ==> (r == spec_err(EFAULT as int)
                && *final(self) == *old(self)),
            op == ARCH_SET_FS && addr < KERNEL_HALF ==> (r == 0 && *final(self) == (Kernel {
                fs_base: addr,
                ..*old(self)
            })),
    {
        if op == ARCH_SET_FS {
            if !check_addr(addr) {
                return err_ret(EFAULT);
            }
            self.fs_base = addr;
            0
        } else {
            err_ret(EINVAL)
        }
    }

    /// exit and exit_group: the status is reported and the thread is
    /// parked; there is no reaping.
    pub fn sys_exit(&mut self, status: i64) -> (r: SyscallOutcome)
        ensures
            r == SyscallOutcome::Exit(status),
            *final(self) == *old(self),
    {
        SyscallOutcome::Exit(status)
    }

    /// The fd is absent from the process, its shared descriptor is gone,
    /// or its access mode fails `want` (read wants O_RDONLY or O_RDWR,
    /// write wants O_WRONLY or O_RDWR): the call owes `-EBADF`.
    pub open spec fn spec_fd_bad(&self, pid: u32, fd: u32, want_write: bool) -> bool {
        ||| self.processes.spec_fd_of(pid, fd) is None
        ||| !self.descriptors@.contains_key(self.processes.spec_fd_of(pid, fd)->0)
        ||| {
            let access = self.descriptors@[self.processes.spec_fd_of(pid, fd)->0].flags
                & O_ACCMODE;
            if want_write {
                !(access == O_RDWR || access == O_WRONLY)
            } else {
                !(access == O_RDWR || access == O_RDONLY)
            }
        }
    }

    /// The descriptor with its offset advanced by `n`, saturating.
    pub open spec fn spec_advanced(desc: FileDescriptor, n: int) -> FileDescriptor {
        FileDescriptor {
            inode: desc.inode,
            offset: if desc.offset + n > u64::MAX {
                u64::MAX
            } else {
                (desc.offset + n) as u64
            },
            flags: desc.flags,
        }
    }

    /// read: `-EFAULT` iff the buffer reaches the kernel half; `-EBADF`
    /// iff the fd is absent or lacks read access; otherwise the owning
    /// filesystem's read (its full relation `read_post`) decides: a wait
    /// becomes `Block`, an error its errno, and bytes land in the user
    /// buffer with exactly this descriptor's offset advanced by the count
    /// returned. An unmapped user page faults with `-EFAULT`.
    pub fn sys_read(&mut self, pid: u32, fd: u32, buf: u64, count: u64) -> (r: SyscallOutcome)
        requires
            old(self).inv(),
            old(self).processes@.contains_key(pid),
            count < 0x1000_0000,
        ensures
            final(self).inv(),
            final(self).processes@.contains_key(pid),
            !(buf < KERNEL_HALF && buf + count < KERNEL_HALF) ==> (r == SyscallOutcome::Ret(
                spec_err(EFAULT as int),
            ) && *final(self) == *old(self)),
            (buf < KERNEL_HALF && buf + count < KERNEL_HALF && old(self).spec_fd_bad(
                pid,
                fd,
                false,
            )) ==> (r == SyscallOutcome::Ret(spec_err(EBADF as int)) && *final(self) == *old(self)),
            (buf < KERNEL_HALF && buf + count < KERNEL_HALF && !old(self).spec_fd_bad(
                pid,
                fd,
                false,
            )) ==> ({
                let handle = old(self).processes.spec_fd_of(pid, fd)->0;
                let desc = old(self).descriptors@[handle];
                exists|inner: Result<Vec<u8>, FilesystemError>|
                    {
                        &&& #[trigger] final(self).vfs.read_post(
                            old(self).vfs,
                            desc.inode,
                            desc.offset,
                            count as usize,
                            inner,
                        )
                        &&& match inner {
                            Result::Err(FilesystemError::WouldBlock) => r == SyscallOutcome::Block
                                && final(self).descriptors == old(self).descriptors
                                && final(self).processes == old(self).processes,
                            Result::Err(e) => r == SyscallOutcome::Ret(spec_err(spec_fs_errno(e)))
                                && final(self).descriptors == old(self).descriptors
                                && final(self).processes == old(self).processes,
                            Result::Ok(bytes) => {
                                if buf + bytes@.len() < KERNEL_HALF
                                    && old(self).processes@[pid].aspace@.bytes_at(
                                    buf,
                                    bytes@.len() as nat,
                                ) is Some {
                                    &&& r == SyscallOutcome::Ret(bytes@.len() as u64)
                                    &&& final(self).descriptors@ == old(self).descriptors@.insert(
                                        handle,
                                        Kernel::spec_advanced(desc, bytes@.len() as int),
                                    )
                                    &&& final(self).processes@[pid].aspace@.bytes_at(
                                        buf,
                                        bytes@.len() as nat,
                                    ) == Option::Some(bytes@)
                                } else {
                                    &&& r == SyscallOutcome::Ret(spec_err(EFAULT as int))
                                    &&& final(self).descriptors == old(self).descriptors
                                }
                            },
                        }
                    }
            }),
            final(self).descriptors@.dom() == old(self).descriptors@.dom(),
            forall|h: u64|
                old(self).descriptors@.contains_key(h) && Option::Some(h)
                    != old(self).processes.spec_fd_of(pid, fd)
                    ==> #[trigger] final(self).descriptors@[h] == old(self).descriptors@[h],
            final(self).processes@.dom() == old(self).processes@.dom(),
            forall|pid2: u32|
                old(self).processes@.contains_key(pid2) && pid2 != pid
                    ==> #[trigger] final(self).processes@[pid2] == old(self).processes@[pid2],
            ({
                let p0 = old(self).processes@[pid];
                let p1 = final(self).processes@[pid];
                &&& p1.files@ == p0.files@
                &&& p1.next_fd == p0.next_fd
                &&& p1.thread == p0.thread
                &&& p1.brk == p0.brk
                &&& p1.brk_initial == p0.brk_initial
                &&& p1.aspace@.pages.dom() == p0.aspace@.pages.dom()
                &&& p1.aspace@.owned == p0.aspace@.owned
            }),
            final(self).vfs.inv(),
            final(self).threads == old(self).threads,
            final(self).scheduler == old(self).scheduler,
            final(self).pmm == old(self).pmm,
    {
        if !check_buffer(buf, count) {
            return SyscallOutcome::Ret(err_ret(EFAULT));
        }
        let handle = match self.lookup_fd(pid, fd) {
            Option::None => {
                return SyscallOutcome::Ret(err_ret(EBADF));
            },
            Option::Some(h) => h,
        };
        let desc = match self.descriptors.get(&handle) {
            Option::None => {
                return SyscallOutcome::Ret(err_ret(EBADF));
            },
            Option::Some(d) => FileDescriptor { inode: d.inode, offset: d.offset, flags: d.flags },
        };
        let access = desc.flags & O_ACCMODE;
        if !(access == O_RDWR || access == O_RDONLY) {
            return SyscallOutcome::Ret(err_ret(EBADF));
        }
        proof {
            assert(desc == old(self).descriptors@[handle]);
            assert(!old(self).spec_fd_bad(pid, fd, false));
        }
        let bytes = match self.vfs.read(&desc.inode, desc.offset, count as usize) {
            Result::Err(FilesystemError::WouldBlock) => {
                proof {
                    assert(self.vfs.read_post(
                        old(self).vfs,
                        desc.inode,
                        desc.offset,
                        count as usize,
                        Result::<Vec<u8>, FilesystemError>::Err(FilesystemError::WouldBlock),
                    ));
                }
                return SyscallOutcome::Block;
            },
            Result::Err(e) => {
                proof {
                    assert(self.vfs.read_post(
                        old(self).vfs,
                        desc.inode,
                        desc.offset,
                        count as usize,
                        Result::<Vec<u8>, FilesystemError>::Err(e),
                    ));
                }
                return SyscallOutcome::Ret(err_ret(fs_errno(e)));
            },
            Result::Ok(b) => b,
        };
        let ghost inner_ok = Result::<Vec<u8>, FilesystemError>::Ok(bytes);
        let n: usize = bytes.len();
        if n as u64 >= KERNEL_HALF || buf >= KERNEL_HALF - n as u64 {
            proof {
                assert(self.vfs.read_post(
                    old(self).vfs,
                    desc.inode,
                    desc.offset,
                    count as usize,
                    inner_ok,
                ));
            }
            return SyscallOutcome::Ret(err_ret(EFAULT));
        }
        // copy the bytes out to the user buffer
        let mut p = match self.processes.take_process(pid) {
            Option::None => {
                proof {
                    assert(false);
                }
                return SyscallOutcome::Ret(err_ret(EBADF));
            },
            Option::Some(p) => p,
        };
        let copied = p.aspace.write_bytes(buf, &bytes);
        self.processes.add_process(p);
        proof {
            read_write_restore_inv(*old(self), *self, pid);
            assert(self.processes@.dom() =~= old(self).processes@.dom());
            assert(self.vfs.read_post(
                old(self).vfs,
                desc.inode,
                desc.offset,
                count as usize,
                inner_ok,
            ));
        }
        if !copied {
            return SyscallOutcome::Ret(err_ret(EFAULT));
        }
        // advance only this descriptor's offset
        let newdesc = FileDescriptor {
            inode: desc.inode,
            offset: if desc.offset > u64::MAX - n as u64 {
                u64::MAX
            } else {
                desc.offset + n as u64
            },
            flags: desc.flags,
        };
        self.descriptors.insert(handle, newdesc);
        proof {
            assert(self.descriptors@.dom() =~= old(self).descriptors@.dom());
            assert(newdesc == Kernel::spec_advanced(
                old(self).descriptors@[handle],
                bytes@.len() as int,
            ));
            assert(self.vfs.read_post(
                old(self).vfs,
                desc.inode,
                desc.offset,
                count as usize,
                inner_ok,
            ));
        }
        SyscallOutcome::Ret(n as u64)
    }

    /// write: `-EFAULT` iff the buffer reaches the kernel half or touches
    /// an unmapped page; `-EBADF` iff the fd is absent or lacks write
    /// access; otherwise the bytes are fetched from the user buffer and
    /// handed to the owning filesystem (its full relation `write_post`):
    /// an error maps to its errno, and on success the requested count
    /// comes back with exactly this descriptor's offset advanced by it.
    pub fn sys_write(&mut self, pid: u32, fd: u32, buf: u64, count: u64) -> (r: SyscallOutcome)
        requires
            old(self).inv(),
            old(self).processes@.contains_key(pid),
            count < 0x1000_0000,
        ensures
            final(self).inv(),
            final(self).processes@.contains_key(pid),
            final(self).processes == old(self).processes,
            final(self).threads == old(self).threads,
            final(self).scheduler == old(self).scheduler,
            final(self).pmm == old(self).pmm,
            final(self).vfs.inv(),
            !(buf < KERNEL_HALF && buf + count < KERNEL_HALF) ==> (r == SyscallOutcome::Ret(
                spec_err(EFAULT as int),
            ) && *final(self) == *old(self)),
            (buf < KERNEL_HALF && buf + count < KERNEL_HALF && old(self).spec_fd_bad(
                pid,
                fd,
                true,
            )) ==> (r == SyscallOutcome::Ret(spec_err(EBADF as int)) && *final(self) == *old(self)),
            (buf < KERNEL_HALF && buf + count < KERNEL_HALF && !old(self).spec_fd_bad(
                pid,
                fd,
                true,
            )) ==> ({
                let handle = old(self).processes.spec_fd_of(pid, fd)->0;
                let desc = old(self).descriptors@[handle];
                if old(self).processes@[pid].aspace@.bytes_at(buf, count as nat) is None {
                    r == SyscallOutcome::Ret(spec_err(EFAULT as int)) && *final(self) == *old(self)
                } else {
                    exists|inner: Result<usize, FilesystemError>|
                        {
                            &&& #[trigger] final(self).vfs.write_post(
                                old(self).vfs,
                                desc.inode,
                                desc.offset,
                                old(self).processes@[pid].aspace@.bytes_at(buf, count as nat)->0,
                                inner,
                            )
                            &&& match inner {
                                Result::Err(e) => r == SyscallOutcome::Ret(
                                    spec_err(spec_fs_errno(e)),
                                ) && final(self).descriptors == old(self).descriptors,
                                Result::Ok(written) => r == SyscallOutcome::Ret(count)
                                    && final(self).descriptors@ == old(self).descriptors@.insert(
                                    handle,
                                    Kernel::spec_advanced(desc, count as int),
                                ),
                            }
                        }
                }
            }),
            final(self).descriptors@.dom() == old(self).descriptors@.dom(),
            forall|h: u64|
                old(self).descriptors@.contains_key(h) && Option::Some(h)
                    != old(self).processes.spec_fd_of(pid, fd)
                    ==> #[trigger] final(self).descriptors@[h] == old(self).descriptors@[h],
    {
        if !check_buffer(buf, count) {
            return SyscallOutcome::Ret(err_ret(EFAULT));
        }
        let handle = match self.lookup_fd(pid, fd) {
            Option::None => {
                return SyscallOutcome::Ret(err_ret(EBADF));
            },
            Option::Some(h) => h,
        };
        let desc = match self.descriptors.get(&handle) {
            Option::None => {
                return SyscallOutcome::Ret(err_ret(EBADF));
            },
            Option::Some(d) => FileDescriptor { inode: d.inode, offset: d.offset, flags: d.flags },
        };
        let access = desc.flags & O_ACCMODE;
        if !(access == O_RDWR || access == O_WRONLY) {
            return SyscallOutcome::Ret(err_ret(EBADF));
        }
        proof {
            assert(desc == old(self).descriptors@[handle]);
            assert(!old(self).spec_fd_bad(pid, fd, true));
        }
        // fetch the bytes from user memory
        let data = match self.read_user(pid, buf, count as usize) {
            Option::None => {
                return SyscallOutcome::Ret(err_ret(EFAULT));
            },
            Option::Some(d) => d,
        };
        proof {
            assert(old(self).processes@[pid].aspace@.bytes_at(buf, count as nat) == Option::Some(
                data@,
            ));
        }
        match self.vfs.write(&desc.inode, desc.offset, data.as_slice()) {
            Result::Err(e) => {
                proof {
                    assert(self.vfs.write_post(
                        old(self).vfs,
                        desc.inode,
                        desc.offset,
                        old(self).processes@[pid].aspace@.bytes_at(buf, count as nat)->0,
                        Result::<usize, FilesystemError>::Err(e),
                    ));
                }
                SyscallOutcome::Ret(err_ret(fs_errno(e)))
            },
            Result::Ok(written) => {
                proof {
                    assert(self.vfs.write_post(
                        old(self).vfs,
                        desc.inode,
                        desc.offset,
                        old(self).processes@[pid].aspace@.bytes_at(buf, count as nat)->0,
                        Result::<usize, FilesystemError>::Ok(written),
                    ));
                }
                let newdesc = FileDescriptor {
                    inode: desc.inode,
                    offset: if desc.offset > u64::MAX - count {
                        u64::MAX
                    } else {
                        desc.offset + count
                    },
                    flags: desc.flags,
                };
                self.descriptors.insert(handle, newdesc);
                proof {
                    assert(self.descriptors@.dom() =~= old(self).descriptors@.dom());
                    assert(newdesc == Kernel::spec_advanced(
                        old(self).descriptors@[handle],
                        count as int,
                    ));
                    assert(self.vfs.write_post(
                        old(self).vfs,
                        desc.inode,
                        desc.offset,
                        old(self).processes@[pid].aspace@.bytes_at(buf, count as nat)->0,
                        Result::<usize, FilesystemError>::Ok(written),
                    ));
                }
                SyscallOutcome::Ret(count)
            },
        }
    }


    /// open: `-EFAULT` iff the pathname pointer reaches the kernel half
    /// or no NUL-terminated string lies there; a non-ASCII path names
    /// nothing and is `-ENOENT`; traversal and open errors map to their
    /// errno; otherwise the call owes the process's next file descriptor,
    /// freshly backed by a shared descriptor on the resolved inode with
    /// offset 0 and the given flags.
    pub fn sys_open(&mut self, pid: u32, path_addr: u64, flags: u32) -> (r: u64)
        requires
            old(self).inv(),
            old(self).processes@.contains_key(pid),
        ensures
            final(self).inv(),
            final(self).processes@.contains_key(pid),
            path_addr >= KERNEL_HALF ==> (r == spec_err(EFAULT as int) && *final(self) == *old(
                self,
            )),
            (path_addr < KERNEL_HALF && (path_addr >= KERNEL_HALF - 4096 || spec_cstr(
                old(self).processes@[pid].aspace@,
                path_addr,
                4096,
            ) is None)) ==> (r == spec_err(EFAULT as int) && *final(self) == *old(self)),
            (path_addr < KERNEL_HALF - 4096 && spec_cstr(
                old(self).processes@[pid].aspace@,
                path_addr,
                4096,
            ) is Some) ==> ({
                let pb = spec_cstr(old(self).processes@[pid].aspace@, path_addr, 4096)->0;
                if exists|j: int| 0 <= j < pb.len() && pb[j] >= 128 {
                    r == spec_err(ENOENT as int) && *final(self) == *old(self)
                } else {
                    let chars = pb.map_values(|x: u8| x as char);
                    match crate::vfs::spec_traverse(
                        old(self).vfs,
                        Result::<crate::vfs::Inode, FilesystemError>::Ok(old(self).vfs@.root),
                        crate::vfs::spec_split(chars),
                    ) {
                        Result::Err(e) => r == spec_err(spec_fs_errno(e)) && *final(self) == *old(
                            self,
                        ),
                        Result::Ok(ino) => match old(self).vfs.spec_open(ino) {
                            Result::Err(e) => r == spec_err(spec_fs_errno(e)) && *final(self)
                                == *old(self),
                            Result::Ok(u) => {
                                let fd0 = old(self).processes@[pid].next_fd;
                                let h0 = old(self).next_handle;
                                &&& r == fd0 as u64
                                &&& final(self).descriptors@ == old(self).descriptors@.insert(
                                    h0,
                                    FileDescriptor { inode: ino, offset: 0, flags },
                                )
                                &&& final(self).processes@[pid].files@ == old(
                                    self,
                                ).processes@[pid].files@.insert(fd0, h0)
                                &&& final(self).processes@[pid].next_fd == (if fd0 == u32::MAX {
                                    fd0
                                } else {
                                    (fd0 + 1) as u32
                                })
                                &&& final(self).next_handle == (if h0 == u64::MAX {
                                    h0
                                } else {
                                    (h0 + 1) as u64
                                })
                                &&& final(self).vfs == old(self).vfs
                                &&& final(self).pmm == old(self).pmm
                                &&& final(self).threads == old(self).threads
                                &&& final(self).scheduler == old(self).scheduler
                                &&& final(self).processes@.dom() == old(self).processes@.dom()
                                &&& forall|pid2: u32|
                                    old(self).processes@.contains_key(pid2) && pid2 != pid
                                        ==> #[trigger] final(self).processes@[pid2] == old(
                                        self,
                                    ).processes@[pid2]
                                &&& final(self).processes@[pid].aspace@ == old(
                                    self,
                                ).processes@[pid].aspace@
                            },
                        },
                    }
                }
            }),
    {
        if !check_addr(path_addr) {
            return err_ret(EFAULT);
        }
        let path_bytes = match self.read_user_cstr(pid, path_addr) {
            Option::None => {
                return err_ret(EFAULT);
            },
            Option::Some(b) => b,
        };
        let path = match ascii_bytes_to_string(&path_bytes) {
            Option::None => {
                return err_ret(ENOENT);
            },
            Option::Some(s) => s,
        };
        let root = self.vfs.root();
        let inode = match self.vfs.traverse_fs(&root, path.as_str()) {
            Result::Err(e) => {
                return err_ret(fs_errno(e));
            },
            Result::Ok(i) => i,
        };
        match self.vfs.open(&inode) {
            Result::Err(e) => {
                return err_ret(fs_errno(e));
            },
            Result::Ok(_) => {},
        }
        let mut p = match self.processes.take_process(pid) {
            Option::None => {
                proof {
                    assert(false);
                }
                return err_ret(EBADF);
            },
            Option::Some(p) => p,
        };
        let fd = p.next_fd;
        let handle = self.next_handle;
        self.descriptors.insert(handle, FileDescriptor { inode, offset: 0, flags });
        self.next_handle = if handle == u64::MAX {
            handle
        } else {
            handle + 1
        };
        p.files.insert(fd, handle);
        p.next_fd = if fd == u32::MAX {
            fd
        } else {
            fd + 1
        };
        self.processes.add_process(p);
        proof {
            read_write_restore_inv(*old(self), *self, pid);
        }
        fd as u64
    }

    /// The shared-descriptor handle of an fd, when open.
    fn lookup_fd(&self, pid: u32, fd: u32) -> (r: Option<u64>)
        requires
            self.inv(),
            self.processes@.contains_key(pid),
        ensures
            r == self.processes.spec_fd_of(pid, fd),
    {
        self.processes.fd_of(pid, fd)
    }

    /// Reads `len` bytes of user memory of process `pid`, failing when a
    /// page is unmapped.
    fn read_user(&self, pid: u32, addr: u64, len: usize) -> (r: Option<Vec<u8>>)
        requires
            self.inv(),
            self.processes@.contains_key(pid),
            addr + len < KERNEL_HALF,
        ensures
            match r {
                Option::Some(v) => self.processes@[pid].aspace@.bytes_at(addr, len as nat)
                    == Option::Some(v@) && v@.len() == len,
                Option::None => self.processes@[pid].aspace@.bytes_at(addr, len as nat) is None,
            },
    {
        self.processes.read_bytes_of(pid, addr, len)
    }

    /// Reads a NUL-terminated byte string from user memory, at most one
    /// page long, failing on an unmapped page or a missing terminator.
    fn read_user_cstr(&self, pid: u32, addr: u64) -> (r: Option<Vec<u8>>)
        requires
            self.inv(),
            self.processes@.contains_key(pid),
            addr < KERNEL_HALF,
        ensures
            addr >= KERNEL_HALF - 4096 ==> r is None,
            addr < KERNEL_HALF - 4096 ==> match r {
                Option::Some(v) => spec_cstr(self.processes@[pid].aspace@, addr, 4096)
                    == Option::Some(v@),
                Option::None => spec_cstr(self.processes@[pid].aspace@, addr, 4096) is None,
            },
    {
        if addr >= KERNEL_HALF - 4096 {
            return Option::None;
        }
        let ghost av = self.processes@[pid].aspace@;
        let mut out: Vec<u8> = Vec::new();
        let mut i: u64 = 0;
        while i < 4096
            invariant
                0 <= i <= 4096,
                addr + 4096 < KERNEL_HALF,
                self.inv(),
                self.processes@.contains_key(pid),
                av == self.processes@[pid].aspace@,
                out@.len() == i,
                (match spec_cstr(av, (addr + i) as u64, (4096 - i) as nat) {
                    Option::None => spec_cstr(av, addr, 4096) is None,
                    Option::Some(rest) => spec_cstr(av, addr, 4096) == Option::Some(out@ + rest),
                }),
            decreases 4096 - i,
        {
            let b = match self.processes.read_byte_of(pid, addr + i) {
                Option::None => {
                    return Option::None;
                },
                Option::Some(b) => b,
            };
            if b == 0 {
                proof {
                    assert(spec_cstr(av, (addr + i) as u64, (4096 - i) as nat) == Option::Some(
                        Seq::<u8>::empty(),
                    ));
                    assert(out@ + Seq::<u8>::empty() =~= out@);
                }
                return Option::Some(out);
            }
            out.push(b);
            proof {
                let tail = spec_cstr(av, (addr + i + 1) as u64, (4096 - i - 1) as nat);
                match tail {
                    Option::None => {},
                    Option::Some(rest) => {
                        assert(out@ + rest =~= out@.drop_last() + (seq![b] + rest));
                    },
                }
            }
            i = i + 1;
        }
        Option::None
    }
}

/// Decodes an ASCII pathname; anything with a high byte has no entry in
/// this kernel's filesystems.
fn ascii_bytes_to_string(b: &Vec<u8>) -> (r: Option<String>)
    ensures
        r is Some ==> r->0@ == b@.map_values(|x: u8| x as char),
        r is None <==> exists|j: int| 0 <= j < b@.len() && b@[j] >= 128,
{
    let mut i: usize = 0;
    while i < b.len()
        invariant
            0 <= i <= b@.len(),
            forall|j: int| 0 <= j < i ==> b@[j] < 128,
        decreases b@.len() - i,
    {
        if b[i] >= 128 {
            proof {
                assert(b@[i as int] >= 128);
            }
            return Option::None;
        }
        i = i + 1;
    }
    Option::Some(crate::ramdisk::ascii_to_string(crate::vfs::clone_bytes(b)))
}


/// Stands for the address of the user-space entry trampoline: the machine
/// step that performs `sysret` into a fresh program. The embedder maps it
/// to the real routine.
pub const ENTER_USERSPACE_ENTRY: u64 = 1;

/// Stands for the address of the forked-child trampoline, which restores
/// the mirrored trapframe and returns zero to the child. The embedder
/// maps it to the real routine.
pub const FORKED_ENTRY: u64 = 2;

impl Kernel {
    /// fork: deep-copies the caller's user pages into fresh frames (so
    /// parent and child contents start equal and later writes stay
    /// private), shares the descriptor table handle for handle, gives the
    /// child a new pid and a thread whose kernel stack mirrors the
    /// caller's trapframe with return value zero, and puts that thread on
    /// the ready queue. The parent's call returns the child pid.
    pub fn sys_fork(&mut self, pid: u32) -> (r: SyscallOutcome)
        requires
            old(self).inv(),
            old(self).processes@.contains_key(pid),
        ensures
            final(self).inv(),
            final(self).processes@.contains_key(pid),
            final(self).processes@[pid] == old(self).processes@[pid],
            (r == SyscallOutcome::Ret(spec_err(EAGAIN as int)) <==> (old(self).next_pid
                == u32::MAX || old(self).next_tid == u32::MAX)),
            r == SyscallOutcome::Ret(spec_err(ENOMEM as int)) ==> forall|g: int|
                final(self).pmm.frame_in_range(g) ==> final(self).pmm.frame_used(g),
            r == SyscallOutcome::Ret(spec_err(ENOMEM as int)) || r == SyscallOutcome::Ret(
                spec_err(EAGAIN as int),
            ) || (r == SyscallOutcome::Ret(old(self).next_pid as u64) && {
                let parent = old(self).processes@[pid];
                let child_pid = old(self).next_pid;
                let child = final(self).processes@[child_pid];
                &&& final(self).processes@.contains_key(child_pid)
                &&& child.aspace@.pages.dom() == parent.aspace@.pages.dom()
                &&& forall|pg: u64|
                    parent.aspace@.pages.contains_key(pg) ==> ((
                    #[trigger] child.aspace@.pages[pg]).bytes == parent.aspace@.pages[pg].bytes)
                &&& child.files@ == parent.files@
                &&& child.brk == parent.brk
                &&& child.brk_initial == parent.brk_initial
                &&& final(self).scheduler@.ready == old(self).scheduler@.ready.push(child.thread)
                &&& child.thread == old(self).next_tid
                &&& final(self).threads@.contains_key(child.thread)
                &&& ({
                    let pth = old(self).threads@[parent.thread];
                    let cth = final(self).threads@[child.thread];
                    &&& forall|q: int|
                        0 <= q < 6 ==> #[trigger] cth.kstack@[crate::scheduler::KSTACK_WORDS - 6
                            + q] == pth.kstack@[crate::scheduler::KSTACK_WORDS - 6 + q]
                    &&& cth.kstack@[crate::scheduler::KSTACK_WORDS - 7] == FORKED_ENTRY
                    &&& cth.context.rsp == crate::scheduler::KSTACK_WORDS - 7
                })
            }),
    {
        let child_pid = self.next_pid;
        let child_tid = self.next_tid;
        if child_pid == u32::MAX || child_tid == u32::MAX {
            return SyscallOutcome::Ret(err_ret(EAGAIN));
        }
        let ghost k0 = *old(self);
        let (child, cthread) = {
            let p = match self.processes.get_process(pid) {
                Option::None => {
                    proof {
                        assert(false);
                    }
                    return SyscallOutcome::Ret(err_ret(EAGAIN));
                },
                Option::Some(p) => p,
            };
            let parent_thread = match self.threads.get(&p.thread) {
                Option::None => {
                    proof {
                        assert(false);
                    }
                    return SyscallOutcome::Ret(err_ret(EAGAIN));
                },
                Option::Some(t) => t,
            };
            match p.fork(&mut self.pmm, parent_thread, child_pid, child_tid, FORKED_ENTRY) {
                Option::None => {
                    return SyscallOutcome::Ret(err_ret(ENOMEM));
                },
                Option::Some(pair) => pair,
            }
        };
        self.threads.insert(child_tid, cthread);
        let ghost child_snap = child;
        self.processes.add_process(child);
        self.scheduler.enqueue(child_tid);
        self.next_pid = child_pid + 1;
        self.next_tid = child_tid + 1;
        proof {
            fork_add_child_inv(k0, *self, pid, child_pid, child_tid);
        }
        SyscallOutcome::Ret(child_pid as u64)
    }
}

/// The kernel invariant after fork adds the child: the child's frames
/// were free before (so they meet no other process's frames), they are
/// marked used now, and nobody else's frames changed.
proof fn fork_add_child_inv(k0: Kernel, k1: Kernel, pid: u32, child_pid: u32, child_tid: u32)
    requires
        k0.inv(),
        k0.processes@.contains_key(pid),
        child_pid == k0.next_pid,
        child_tid == k0.next_tid,
        k1.heap_frames == k0.heap_frames,
        child_pid < u32::MAX,
        child_tid < u32::MAX,
        k1.processes@ == k0.processes@.insert(child_pid, k1.processes@[child_pid]),
        k1.processes@.contains_key(child_pid),
        (#[trigger] k1.processes@[child_pid]).inv(),
        k1.processes@[child_pid].pid == child_pid,
        k1.processes@[child_pid].thread == child_tid,
        k1.threads@ == k0.threads@.insert(child_tid, k1.threads@[child_tid]),
        k1.threads@.contains_key(child_tid),
        (#[trigger] k1.threads@[child_tid]).wf(),
        k1.vfs == k0.vfs,
        k1.pmm.wf(),
        k1.pmm.num_frames() == k0.pmm.num_frames(),
        k1.next_pid == child_pid + 1,
        k1.next_tid == child_tid + 1,
        forall|f: u64|
            #[trigger] owns_frame(k1.processes@[child_pid], f) ==> (k0.pmm.frame_in_range(f as int)
                && !k0.pmm.frame_used(f as int) && k1.pmm.frame_used(f as int)),
        forall|g: int|
            k0.pmm.frame_in_range(g) ==> (k1.pmm.frame_used(g) <==> (k0.pmm.frame_used(g)
                || owns_frame(k1.processes@[child_pid], g as u64))),
    ensures
        k1.inv(),
{
    assert(!k0.processes@.contains_key(child_pid));
    assert(!k0.threads@.contains_key(child_tid));
    assert forall|pid2: u32, f: u64|
        k1.processes@.contains_key(pid2) && #[trigger] owns_frame(k1.processes@[pid2], f)
            implies k1.pmm.frame_in_range(f as int) && k1.pmm.frame_used(f as int) by {
        if pid2 != child_pid {
            assert(k1.processes@[pid2] == k0.processes@[pid2]);
            assert(owns_frame(k0.processes@[pid2], f));
            assert(k0.pmm.frame_used(f as int) && k0.pmm.frame_in_range(f as int));
        }
    }
    assert forall|pid1: u32, pid2: u32, f: u64|
        k1.processes@.contains_key(pid1) && k1.processes@.contains_key(pid2) && pid1 != pid2
            && #[trigger] owns_frame(k1.processes@[pid1], f) implies !#[trigger] owns_frame(
        k1.processes@[pid2],
        f,
    ) by {
        if pid1 == child_pid {
            if owns_frame(k1.processes@[pid2], f) {
                assert(owns_frame(k0.processes@[pid2], f));
                assert(k0.pmm.frame_used(f as int));
                assert(!k0.pmm.frame_used(f as int));
            }
        } else if pid2 == child_pid {
            assert(owns_frame(k0.processes@[pid1], f));
            assert(k0.pmm.frame_used(f as int));
            if owns_frame(k1.processes@[child_pid], f) {
                assert(!k0.pmm.frame_used(f as int));
                assert(false);
            }
        } else {
            assert(owns_frame(k0.processes@[pid1], f));
            assert(!owns_frame(k0.processes@[pid2], f));
        }
    }
    assert forall|pid2: u32|
        k1.processes@.contains_key(pid2) implies k1.threads@.contains_key(
        (#[trigger] k1.processes@[pid2]).thread,
    ) by {
        if pid2 != child_pid {
            assert(k1.processes@[pid2] == k0.processes@[pid2]);
            assert(k0.threads@.contains_key(k0.processes@[pid2].thread));
        }
    }
    assert forall|pid2: u32, f: u64|
        k1.processes@.contains_key(pid2) && #[trigger] owns_frame(k1.processes@[pid2], f)
            implies !k1.heap_frames@.contains(f) by {
        if pid2 == child_pid {
            if k1.heap_frames@.contains(f) {
                assert(k0.pmm.frame_used(f as int));
                assert(!k0.pmm.frame_used(f as int));
            }
        } else {
            assert(owns_frame(k0.processes@[pid2], f));
        }
    }
}


impl Kernel {
    /// execve: reads the pathname and up to 256 argument strings from the
    /// caller's memory, loads the named file from the filesystem, and
    /// replaces the program (see `UserProcess::execve`). On success the
    /// caller never sees a return: its thread restarts at the user-space
    /// entry trampoline and is put back on the ready queue. Failure
    /// reports the all-ones value.
    pub fn sys_execve(&mut self, pid: u32, path_addr: u64, argv_addr: u64) -> (r: SyscallOutcome)
        requires
            old(self).inv(),
            old(self).processes@.contains_key(pid),
        ensures
            final(self).inv(),
            final(self).processes@.contains_key(pid),
            r == SyscallOutcome::Exec || r == SyscallOutcome::Ret(0xffff_ffff_ffff_ffffu64),
            r == SyscallOutcome::Exec ==> ({
                let tid = final(self).processes@[pid].thread;
                &&& final(self).threads@.contains_key(tid)
                &&& final(self).threads@[tid].kstack@[crate::scheduler::KSTACK_WORDS - 1]
                    == ENTER_USERSPACE_ENTRY
                &&& final(self).scheduler@.ready == old(self).scheduler@.ready.push(tid)
            }),
            r == SyscallOutcome::Ret(0xffff_ffff_ffff_ffffu64) ==> ({
                let pv = old(self).processes@[pid].aspace@;
                ||| path_addr >= KERNEL_HALF - 4096
                ||| spec_cstr(pv, path_addr, 4096) is None
                ||| (exists|j: int|
                    0 <= j < spec_cstr(pv, path_addr, 4096)->0.len() && spec_cstr(
                        pv,
                        path_addr,
                        4096,
                    )->0[j] >= 128)
                ||| (argv_addr != 0 && spec_argv(pv, argv_addr, 0) is None)
                ||| ({
                    let pb = spec_cstr(pv, path_addr, 4096)->0;
                    let chars = pb.map_values(|x: u8| x as char);
                    let argseq = if argv_addr == 0 {
                        Seq::<Seq<u8>>::empty()
                    } else {
                        spec_argv(pv, argv_addr, 0)->0
                    };
                    match crate::vfs::spec_traverse(
                        old(self).vfs,
                        Result::<crate::vfs::Inode, FilesystemError>::Ok(old(self).vfs@.root),
                        crate::vfs::spec_split(chars),
                    ) {
                        Result::Err(e) => true,
                        Result::Ok(ino) => match old(self).vfs.spec_open(ino) {
                            Result::Err(e) => true,
                            Result::Ok(u) => exists|inner: Result<Vec<u8>, FilesystemError>|
                                {
                                    &&& #[trigger] final(self).vfs.read_post(
                                        old(self).vfs,
                                        ino,
                                        0u64,
                                        ino.size,
                                        inner,
                                    )
                                    &&& match inner {
                                        Result::Err(e2) => true,
                                        Result::Ok(b) => {
                                            ||| final(self).vfs.spec_close(ino) is Err
                                            ||| b@.len() >= 0x1000_0000_0000
                                            ||| !crate::elf::elf_layout_ok(b@)
                                            ||| !crate::process::loadable(
                                                b@,
                                                crate::process::spec_headers(b@),
                                            )
                                            ||| !crate::process::args_fit(argseq)
                                            ||| (forall|g: int|
                                                final(self).pmm.frame_in_range(g)
                                                    ==> final(self).pmm.frame_used(g))
                                        },
                                    }
                                },
                        },
                    }
                })
            }),
    {
        if !check_addr(path_addr) {
            return SyscallOutcome::Ret(u64::MAX);
        }
        let path_bytes = match self.read_user_cstr(pid, path_addr) {
            Option::None => {
                return SyscallOutcome::Ret(u64::MAX);
            },
            Option::Some(b) => b,
        };
        let path = match ascii_bytes_to_string(&path_bytes) {
            Option::None => {
                return SyscallOutcome::Ret(u64::MAX);
            },
            Option::Some(s) => s,
        };
        // up to 256 argv strings, each through a user pointer
        let ghost pv = self.processes@[pid].aspace@;
        let mut args: Vec<Vec<u8>> = Vec::new();
        if argv_addr != 0 {
            let mut i: u64 = 0;
            let mut done = false;
            while i < 256 && !done
                invariant
                    0 <= i <= 256,
                    self.inv(),
                    self.processes@.contains_key(pid),
                    *self == *old(self),
                    pv == self.processes@[pid].aspace@,
                    args@.len() == i,
                    argv_addr != 0,
                    done ==> spec_argv(pv, argv_addr, 0) == Option::Some(
                        args@.map_values(|v: Vec<u8>| v@),
                    ),
                    !done ==> (match spec_argv(pv, argv_addr, i as int) {
                        Option::None => spec_argv(pv, argv_addr, 0) is None,
                        Option::Some(rest) => spec_argv(pv, argv_addr, 0) == Option::Some(
                            args@.map_values(|v: Vec<u8>| v@) + rest,
                        ),
                    }),
                decreases 256 - i + (if done { 0int } else { 1int }),
            {
                proof {
                    assert(args@.map_values(|v: Vec<u8>| v@) + Seq::<Seq<u8>>::empty()
                        =~= args@.map_values(|v: Vec<u8>| v@));
                }
                if argv_addr >= KERNEL_HALF || 8 * i >= KERNEL_HALF - argv_addr || 8 * i + 8
                    >= KERNEL_HALF - argv_addr {
                    proof {
                        assert(spec_argv(pv, argv_addr, i as int) is None);
                    }
                    return SyscallOutcome::Ret(u64::MAX);
                }
                let ptr_addr = argv_addr + 8 * i;
                let ptr_bytes = match self.read_user(pid, ptr_addr, 8) {
                    Option::None => {
                        proof {
                            assert(spec_argv(pv, argv_addr, i as int) is None);
                        }
                        return SyscallOutcome::Ret(u64::MAX);
                    },
                    Option::Some(b) => b,
                };
                let ptr = vstd::bytes::u64_from_le_bytes(ptr_bytes.as_slice());
                if ptr == 0 {
                    done = true;
                    proof {
                        assert(spec_argv(pv, argv_addr, i as int) == Option::Some(
                            Seq::<Seq<u8>>::empty(),
                        ));
                    }
                } else {
                    if ptr >= KERNEL_HALF - 4096 {
                        proof {
                            assert(spec_argv(pv, argv_addr, i as int) is None);
                        }
                        return SyscallOutcome::Ret(u64::MAX);
                    }
                    let arg = match self.read_user_cstr(pid, ptr) {
                        Option::None => {
                            proof {
                                assert(spec_argv(pv, argv_addr, i as int) is None);
                            }
                            return SyscallOutcome::Ret(u64::MAX);
                        },
                        Option::Some(b) => b,
                    };
                    let ghost pre_args = args@;
                    args.push(arg);
                    proof {
                        match spec_argv(pv, argv_addr, i as int + 1) {
                            Option::None => {},
                            Option::Some(rest) => {
                                assert(args@.map_values(|v: Vec<u8>| v@) + rest =~= pre_args
                                    .map_values(|v: Vec<u8>| v@) + (seq![arg@] + rest));
                            },
                        }
                    }
                    i = i + 1;
                }
            }
            proof {
                if !done {
                    assert(spec_argv(pv, argv_addr, 256) == Option::Some(Seq::<Seq<u8>>::empty()));
                    assert(spec_argv(pv, argv_addr, 0) == Option::Some(
                        args@.map_values(|v: Vec<u8>| v@) + Seq::<Seq<u8>>::empty(),
                    ));
                }
                assert(spec_argv(pv, argv_addr, 0) == Option::Some(
                    args@.map_values(|v: Vec<u8>| v@),
                ) || spec_argv(pv, argv_addr, 0) == Option::Some(
                    args@.map_values(|v: Vec<u8>| v@) + Seq::<Seq<u8>>::empty(),
                ));
                assert(args@.map_values(|v: Vec<u8>| v@) + Seq::<Seq<u8>>::empty() =~= args@
                    .map_values(|v: Vec<u8>| v@));
            }
        }
        // the image comes from the filesystem
        let ghost chars = path@;
        let rres = crate::mounts::read(&mut self.vfs, path.as_str());
        let ghost rres_g = rres;
        let ghost vfs_after = self.vfs;
        let binary = match rres {
            Result::Err(_) => {
                proof {
                    match crate::vfs::spec_traverse(
                        old(self).vfs,
                        Result::<crate::vfs::Inode, FilesystemError>::Ok(old(self).vfs@.root),
                        crate::vfs::spec_split(chars),
                    ) {
                        Result::Err(e) => {},
                        Result::Ok(ino) => match old(self).vfs.spec_open(ino) {
                            Result::Err(e) => {},
                            Result::Ok(u) => {
                                let w = choose|inner: Result<Vec<u8>, FilesystemError>|
                                    {
                                        &&& #[trigger] vfs_after.read_post(
                                            old(self).vfs,
                                            ino,
                                            0u64,
                                            ino.size,
                                            inner,
                                        )
                                        &&& match inner {
                                            Result::Err(e2) => rres_g == Result::<
                                                Vec<u8>,
                                                FilesystemError,
                                            >::Err(e2),
                                            Result::Ok(bytes) => match vfs_after.spec_close(ino) {
                                                Result::Err(e2) => rres_g == Result::<
                                                    Vec<u8>,
                                                    FilesystemError,
                                                >::Err(e2),
                                                Result::Ok(u2) => rres_g == Result::<
                                                    Vec<u8>,
                                                    FilesystemError,
                                                >::Ok(bytes),
                                            },
                                        }
                                    };
                                assert(self.vfs == vfs_after);
                                assert(self.vfs.read_post(old(self).vfs, ino, 0u64, ino.size, w));
                            },
                        },
                    }
                }
                return SyscallOutcome::Ret(u64::MAX);
            },
            Result::Ok(b) => b,
        };
        if binary.len() as u64 >= 0x1000_0000_0000 {
            proof {
                    match crate::vfs::spec_traverse(
                        old(self).vfs,
                        Result::<crate::vfs::Inode, FilesystemError>::Ok(old(self).vfs@.root),
                        crate::vfs::spec_split(chars),
                    ) {
                        Result::Err(e) => {},
                        Result::Ok(ino) => match old(self).vfs.spec_open(ino) {
                            Result::Err(e) => {},
                            Result::Ok(u) => {
                                let w = choose|inner: Result<Vec<u8>, FilesystemError>|
                                    {
                                        &&& #[trigger] vfs_after.read_post(
                                            old(self).vfs,
                                            ino,
                                            0u64,
                                            ino.size,
                                            inner,
                                        )
                                        &&& match inner {
                                            Result::Err(e2) => rres_g == Result::<
                                                Vec<u8>,
                                                FilesystemError,
                                            >::Err(e2),
                                            Result::Ok(bytes) => match vfs_after.spec_close(ino) {
                                                Result::Err(e2) => rres_g == Result::<
                                                    Vec<u8>,
                                                    FilesystemError,
                                                >::Err(e2),
                                                Result::Ok(u2) => rres_g == Result::<
                                                    Vec<u8>,
                                                    FilesystemError,
                                                >::Ok(bytes),
                                            },
                                        }
                                    };
                                assert(self.vfs == vfs_after);
                                assert(self.vfs.read_post(old(self).vfs, ino, 0u64, ino.size, w));
                            },
                        },
                    }
            }
            return SyscallOutcome::Ret(u64::MAX);
        }
        let ghost mid = *self;
        let mut p = match self.processes.take_process(pid) {
            Option::None => {
                proof {
                    assert(false);
                }
                return SyscallOutcome::Ret(u64::MAX);
            },
            Option::Some(p) => p,
        };
        let mut th = match self.threads.remove(&p.thread) {
            Option::None => {
                proof {
                    assert(false);
                }
                return SyscallOutcome::Ret(u64::MAX);
            },
            Option::Some(t) => t,
        };
        let tid = p.thread;
        let outcome = p.execve(&mut self.pmm, &mut th, &binary, &args);
        let ghost out_g = outcome;
        let exec_ok = match outcome {
            Result::Ok(_) => true,
            Result::Err(_) => false,
        };
        if exec_ok {
            // restart the thread at the user-space entry; it keeps the new
            // context (entry point and user stack) execve installed
            th.set_func(ENTER_USERSPACE_ENTRY);
        }
        self.threads.insert(tid, th);
        self.processes.add_process(p);
        proof {
            assert(mid.processes@.contains_key(pid));
            assert forall|t: u32|
                self.threads@.contains_key(t) == mid.threads@.contains_key(t) by {
                assert(self.threads@ =~= mid.threads@.remove(tid).insert(tid, self.threads@[tid]));
            }
            assert forall|t: u32| self.threads@.contains_key(t) implies (
            #[trigger] self.threads@[t]).wf() by {
                if t != tid {
                    assert(self.threads@[t] == mid.threads@[t]);
                }
            }
            execve_restore_inv(mid, *self, pid);
        }
        if exec_ok {
            self.scheduler.enqueue(tid);
            SyscallOutcome::Exec
        } else {
            proof {
                    match crate::vfs::spec_traverse(
                        old(self).vfs,
                        Result::<crate::vfs::Inode, FilesystemError>::Ok(old(self).vfs@.root),
                        crate::vfs::spec_split(chars),
                    ) {
                        Result::Err(e) => {},
                        Result::Ok(ino) => match old(self).vfs.spec_open(ino) {
                            Result::Err(e) => {},
                            Result::Ok(u) => {
                                let w = choose|inner: Result<Vec<u8>, FilesystemError>|
                                    {
                                        &&& #[trigger] vfs_after.read_post(
                                            old(self).vfs,
                                            ino,
                                            0u64,
                                            ino.size,
                                            inner,
                                        )
                                        &&& match inner {
                                            Result::Err(e2) => rres_g == Result::<
                                                Vec<u8>,
                                                FilesystemError,
                                            >::Err(e2),
                                            Result::Ok(bytes) => match vfs_after.spec_close(ino) {
                                                Result::Err(e2) => rres_g == Result::<
                                                    Vec<u8>,
                                                    FilesystemError,
                                                >::Err(e2),
                                                Result::Ok(u2) => rres_g == Result::<
                                                    Vec<u8>,
                                                    FilesystemError,
                                                >::Ok(bytes),
                                            },
                                        }
                                    };
                                assert(self.vfs == vfs_after);
                                assert(self.vfs.read_post(old(self).vfs, ino, 0u64, ino.size, w));
                                match w {
                                    Result::Err(e2) => {},
                                    Result::Ok(bytes) => {
                                        match vfs_after.spec_close(ino) {
                                            Result::Err(e2) => {},
                                            Result::Ok(u2) => {
                                                assert(bytes@ == binary@);
                                                match out_g {
                                                    Result::Ok(u3) => {
                                                        assert(false);
                                                    },
                                                    Result::Err(
                                                        crate::elf::LoadingError::InvalidHeader,
                                                    ) => {
                                                        assert(!crate::elf::elf_layout_ok(
                                                            binary@,
                                                        ));
                                                    },
                                                    Result::Err(
                                                        crate::elf::LoadingError::UnloadableSegment,
                                                    ) => {
                                                        assert(!crate::process::loadable(
                                                            binary@,
                                                            crate::process::spec_headers(binary@),
                                                        ));
                                                    },
                                                    Result::Err(
                                                        crate::elf::LoadingError::ArgumentsTooLong,
                                                    ) => {
                                                        if argv_addr != 0 {
                                                            assert(spec_argv(pv, argv_addr, 0)
                                                                == Option::Some(args@.map_values(
                                                                |v: Vec<u8>| v@,
                                                            )));
                                                        } else {
                                                            assert(args@.map_values(
                                                                |v: Vec<u8>| v@,
                                                            ) =~= Seq::<Seq<u8>>::empty());
                                                        }
                                                        assert(!crate::process::args_fit(
                                                            args@.map_values(|v: Vec<u8>| v@),
                                                        ));
                                                    },
                                                    Result::Err(crate::elf::LoadingError::OutOfMemory) => {
                                                        assert(forall|g: int|
                                                            self.pmm.frame_in_range(g)
                                                                ==> self.pmm.frame_used(g));
                                                    },
                                                }
                                            },
                                        }
                                    },
                                }
                            },
                        },
                    }
            }
            SyscallOutcome::Ret(u64::MAX)
        }
    }
}

/// The kernel invariant after execve puts the process and its thread
/// back: frames may have grown by freshly allocated ones only.
proof fn execve_restore_inv(k0: Kernel, k1: Kernel, pid: u32)
    requires
        k0.inv(),
        k1.heap_frames == k0.heap_frames,
        k1.next_pid == k0.next_pid,
        k1.next_tid == k0.next_tid,
        k0.processes@.contains_key(pid),
        k1.processes@ == k0.processes@.remove(pid).insert(pid, k1.processes@[pid]),
        k1.processes@.contains_key(pid),
        (#[trigger] k1.processes@[pid]).inv(),
        k1.processes@[pid].pid == pid,
        k1.processes@[pid].thread == k0.processes@[pid].thread,
        k1.pmm.wf(),
        k1.pmm.num_frames() == k0.pmm.num_frames(),
        k1.vfs.inv(),
        forall|t: u32| k1.threads@.contains_key(t) == k0.threads@.contains_key(t),
        forall|t: u32| k1.threads@.contains_key(t) ==> (#[trigger] k1.threads@[t]).wf(),
        forall|f: u64|
            #[trigger] owns_frame(k1.processes@[pid], f) ==> k1.pmm.frame_in_range(f as int)
                && k1.pmm.frame_used(f as int),
        forall|f: u64|
            #[trigger] owns_frame(k1.processes@[pid], f) && !owns_frame(k0.processes@[pid], f)
                ==> !k0.pmm.frame_used(f as int),
        forall|g: int|
            k0.pmm.frame_in_range(g) && k0.pmm.frame_used(g) ==> k1.pmm.frame_used(g),
    ensures
        k1.inv(),
{
    assert forall|pid2: u32|
        pid2 != pid implies (k1.processes@.contains_key(pid2) == k0.processes@.contains_key(pid2))
        by {}
    lemma_put_back_keeps_inv_changed(k0, k1, pid);
}

/// The kernel invariant after an operation that changed no address space
/// and no frame: the process goes back as it was taken, up to fields
/// outside the memory model.
proof fn read_write_restore_inv(k0: Kernel, k1: Kernel, pid: u32)
    requires
        k0.inv(),
        k1.heap_frames == k0.heap_frames,
        k1.next_pid == k0.next_pid,
        k1.next_tid == k0.next_tid,
        k0.processes@.contains_key(pid),
        k1.processes@ == k0.processes@.remove(pid).insert(pid, k1.processes@[pid]),
        k1.processes@.contains_key(pid),
        (#[trigger] k1.processes@[pid]).inv(),
        k1.processes@[pid].pid == pid,
        k1.processes@[pid].thread == k0.processes@[pid].thread,
        k1.processes@[pid].aspace@.owned == k0.processes@[pid].aspace@.owned,
        k1.pmm == k0.pmm,
        k1.vfs.inv(),
        k1.threads == k0.threads,
    ensures
        k1.inv(),
{
    assert forall|pid2: u32|
        pid2 != pid implies (k1.processes@.contains_key(pid2) == k0.processes@.contains_key(pid2))
        by {}
    assert forall|pid2: u32, f: u64|
        k1.processes@.contains_key(pid2) && #[trigger] owns_frame(k1.processes@[pid2], f)
            implies k1.pmm.frame_in_range(f as int) && k1.pmm.frame_used(f as int) by {
        if pid2 != pid {
            assert(k1.processes@[pid2] == k0.processes@[pid2]);
            assert(owns_frame(k0.processes@[pid2], f));
        } else {
            assert(owns_frame(k0.processes@[pid], f));
        }
        assert(k0.pmm.frame_in_range(f as int) && k0.pmm.frame_used(f as int));
    }
    assert forall|pid1: u32, pid2: u32, f: u64|
        k1.processes@.contains_key(pid1) && k1.processes@.contains_key(pid2) && pid1 != pid2
            && #[trigger] owns_frame(k1.processes@[pid1], f) implies !#[trigger] owns_frame(
        k1.processes@[pid2],
        f,
    ) by {
        assert(owns_frame(k0.processes@[pid1], f));
        assert(!owns_frame(k0.processes@[pid2], f));
    }
}


/// Stands for the address of the idle loop (enable interrupts and halt);
/// the embedder maps it to the real routine.
pub const IDLE_ENTRY: u64 = 3;

impl Kernel {
    /// The thread currently on the CPU.
    pub fn get_current_thread(&self) -> (r: Option<u32>)
        ensures
            r == self.scheduler@.current,
    {
        self.scheduler.current()
    }

    /// The dispatch table, Linux x86-64 numbering: 0 read, 1 write,
    /// 2 open, 3 close, 12 brk, 16 ioctl, 57 fork, 59 execve, 60 exit,
    /// 158 arch_prctl, 231 exit_group; everything else is `-ENOSYS`.
    /// Buffer counts at or above 2^28 bytes could never be allocated and
    /// are refused as `-ENOMEM` before any work.
    pub fn handle_syscall_inner(
        &mut self,
        pid: u32,
        syscall_number: u64,
        arg0: u64,
        arg1: u64,
        arg2: u64,
        arg3: u64,
    ) -> (r: SyscallOutcome)
        requires
            old(self).inv(),
            old(self).processes@.contains_key(pid),
        ensures
            final(self).inv(),
            final(self).processes@.contains_key(pid),
            syscall_number == 3 ==> (r == SyscallOutcome::Ret(0u64) && *final(self) == *old(self)),
            syscall_number == 16 ==> (r == SyscallOutcome::Ret(spec_err(ENOTTY as int))
                && *final(self) == *old(self)),
            syscall_number == 60 ==> r == SyscallOutcome::Exit(arg0 as i64),
            syscall_number == 231 ==> r == SyscallOutcome::Exit(arg0 as i64),
            !(syscall_number == 0 || syscall_number == 1 || syscall_number == 2 || syscall_number
                == 3 || syscall_number == 12 || syscall_number == 16 || syscall_number == 57
                || syscall_number == 59 || syscall_number == 60 || syscall_number == 158
                || syscall_number == 231) ==> (r == SyscallOutcome::Ret(spec_err(ENOSYS as int))
                && *final(self) == *old(self)),
    {
        if syscall_number == 0 {
            if arg2 >= 0x1000_0000 {
                return SyscallOutcome::Ret(err_ret(ENOMEM));
            }
            self.sys_read(pid, arg0 as u32, arg1, arg2)
        } else if syscall_number == 1 {
            if arg2 >= 0x1000_0000 {
                return SyscallOutcome::Ret(err_ret(ENOMEM));
            }
            self.sys_write(pid, arg0 as u32, arg1, arg2)
        } else if syscall_number == 2 {
            SyscallOutcome::Ret(self.sys_open(pid, arg0, arg1 as u32))
        } else if syscall_number == 3 {
            SyscallOutcome::Ret(self.sys_close(arg0 as u32))
        } else if syscall_number == 12 {
            SyscallOutcome::Ret(self.sys_brk(pid, arg0))
        } else if syscall_number == 16 {
            SyscallOutcome::Ret(self.sys_ioctl())
        } else if syscall_number == 57 {
            self.sys_fork(pid)
        } else if syscall_number == 59 {
            self.sys_execve(pid, arg0, arg1)
        } else if syscall_number == 60 || syscall_number == 231 {
            self.sys_exit(arg0 as i64)
        } else if syscall_number == 158 {
            SyscallOutcome::Ret(self.sys_arch_prctl(arg0 as u32, arg1))
        } else {
            SyscallOutcome::Ret(err_ret(ENOSYS))
        }
    }

    /// Timer preemption: the embedder signals end-of-interrupt and then
    /// performs the switch this decision reports; the current thread goes
    /// back to the tail of the queue.
    pub fn on_timer(&mut self) -> (switch: Option<(Option<u32>, u32)>)
        requires
            old(self).inv(),
        ensures
            final(self).inv(),
            ({
                let mid = match old(self).scheduler@.current {
                    Option::Some(c) => crate::scheduler::SchedulerView {
                        ready: old(self).scheduler@.ready.push(c),
                        ..old(self).scheduler@
                    },
                    Option::None => old(self).scheduler@,
                };
                &&& final(self).scheduler@ == crate::scheduler::spec_yield(mid)
                &&& final(self).processes == old(self).processes
            }),
    {
        self.scheduler.yield_and_continue()
    }

    /// Keyboard interrupt: the scancode joins the ring of the device
    /// filesystem at `dev` (dropping the oldest when full) and the thread
    /// waiting for console input, if any, joins the tail of the ready
    /// queue. Nothing else changes.
    pub fn on_scancode(&mut self, dev: u32, scancode: u8)
        requires
            old(self).inv(),
        ensures
            final(self).inv(),
            final(self).processes == old(self).processes,
            final(self).descriptors == old(self).descriptors,
            final(self).threads == old(self).threads,
            final(self).pmm == old(self).pmm,
            !crate::mounts::spec_is_devfs(old(self).vfs@, dev) ==> (final(self).vfs@ == old(
                self,
            ).vfs@ && final(self).scheduler == old(self).scheduler),
            crate::mounts::spec_is_devfs(old(self).vfs@, dev) ==> ({
                let pre = crate::mounts::spec_devfs_view(old(self).vfs@, dev);
                let post = crate::mounts::spec_devfs_view(final(self).vfs@, dev);
                &&& crate::mounts::spec_is_devfs(final(self).vfs@, dev)
                &&& post.pending == pre.pending
                &&& post.waiting == pre.waiting
                &&& (pre.queue.len() < crate::devfs::SCANCODE_QUEUE_CAPACITY ==> post.queue
                    == pre.queue.push(scancode))
                &&& (pre.queue.len() >= crate::devfs::SCANCODE_QUEUE_CAPACITY ==> post.queue
                    == pre.queue.drop_first().push(scancode))
            }),
            match crate::mounts::spec_console_waiter(old(self).vfs@, dev) {
                Option::Some(t) => final(self).scheduler@ == (crate::scheduler::SchedulerView {
                    ready: old(self).scheduler@.ready.push(t),
                    ..old(self).scheduler@
                }),
                Option::None => final(self).scheduler == old(self).scheduler,
            },
    {
        match self.vfs.push_scancode(dev, scancode) {
            Option::None => {},
            Option::Some(tid) => {
                self.scheduler.enqueue(tid);
            },
        }
    }

    /// A system call that had to wait: records the calling thread as the
    /// single console waiter at `dev` and yields; the keyboard path
    /// re-enqueues the waiter and the call is retried.
    pub fn block_on_console(&mut self, dev: u32, tid: u32) -> (switch: Option<(Option<u32>, u32)>)
        requires
            old(self).inv(),
        ensures
            final(self).inv(),
            final(self).processes == old(self).processes,
            final(self).descriptors == old(self).descriptors,
            final(self).threads == old(self).threads,
            final(self).pmm == old(self).pmm,
            !crate::mounts::spec_is_devfs(old(self).vfs@, dev) ==> final(self).vfs@ == old(
                self,
            ).vfs@,
            crate::mounts::spec_is_devfs(old(self).vfs@, dev) ==> (crate::mounts::spec_is_devfs(
                final(self).vfs@,
                dev,
            ) && crate::mounts::spec_devfs_view(final(self).vfs@, dev) == (crate::devfs::DevfsView {
                waiting: Option::Some(tid),
                ..crate::mounts::spec_devfs_view(old(self).vfs@, dev)
            })),
            final(self).scheduler@ == crate::scheduler::spec_yield(old(self).scheduler@),
            switch == if old(self).scheduler@.current == Option::Some(
                crate::scheduler::dispatch_candidate(old(self).scheduler@),
            ) {
                Option::<(Option<u32>, u32)>::None
            } else {
                Option::<(Option<u32>, u32)>::Some(
                    (
                        old(self).scheduler@.current,
                        crate::scheduler::dispatch_candidate(old(self).scheduler@),
                    ),
                )
            },
    {
        self.vfs.set_console_waiting(dev, Option::Some(tid));
        self.scheduler.yield_execution()
    }
}



/// Draws `count` frames from the allocator to back the fixed
/// kernel-heap window. `None` means the allocator ran dry: every frame
/// in range is then marked used.
pub fn back_heap(pmm: &mut PhysicalMemoryManager, count: usize) -> (r: Option<Vec<u64>>)
    requires
        old(pmm).wf(),
    ensures
        final(pmm).wf(),
        final(pmm).num_frames() == old(pmm).num_frames(),
        forall|g: int|
            old(pmm).frame_in_range(g) && old(pmm).frame_used(g) ==> final(pmm).frame_used(g),
        match r {
            Option::None => forall|g: int|
                final(pmm).frame_in_range(g) ==> final(pmm).frame_used(g),
            Option::Some(v) => {
                &&& v@.len() == count
                &&& forall|f: u64|
                    #[trigger] v@.contains(f) ==> final(pmm).frame_in_range(f as int)
                        && final(pmm).frame_used(f as int)
            },
        },
{
    let mut frames: Vec<u64> = Vec::new();
    let mut hf: usize = 0;
    while hf < count
        invariant
            0 <= hf <= count,
            pmm.wf(),
            pmm.num_frames() == old(pmm).num_frames(),
            frames@.len() == hf,
            forall|g: int|
                old(pmm).frame_in_range(g) && old(pmm).frame_used(g) ==> pmm.frame_used(g),
            forall|f: u64|
                #[trigger] frames@.contains(f) ==> pmm.frame_in_range(f as int)
                    && pmm.frame_used(f as int),
        decreases count - hf,
    {
        let ghost pre_pmm = *pmm;
        let ghost pre_frames = frames@;
        match pmm.allocate_frame() {
            Option::None => {
                proof {
                    assert forall|g: int| pmm.frame_in_range(g) implies pmm.frame_used(
                        g,
                    ) by {
                        assert(pre_pmm.frame_in_range(g));
                        assert(pre_pmm.frame_used(g));
                    }
                }
                return Option::None;
            },
            Option::Some(f) => {
                frames.push(f);
                proof {
                    assert forall|g: u64| #[trigger] frames@.contains(g) implies
                        pmm.frame_in_range(g as int) && pmm.frame_used(g as int) by {
                        let j = choose|j: int| 0 <= j < frames@.len() && frames@[j] == g;
                        if j < frames@.len() - 1 {
                            assert(pre_frames[j] == g);
                            assert(pre_frames.contains(g));
                            assert(pre_pmm.frame_used(g as int));
                            assert(g != f);
                        } else {
                            assert(g == f);
                        }
                    }
                }
            },
        }
        hf = hf + 1;
    }
    Option::Some(frames)
}

impl Kernel {
    /// Boot: builds the whole kernel from what the boot environment
    /// delivers. The frame allocator covers the memory map; the console
    /// grid and the keyboard front it as the device filesystem on device
    /// id 1, mounted as `dev`; the ramdisk parsed from the ustar image is
    /// device id 2, mounted as `init`; the idle thread and the init
    /// process (pid 1, on the boot page tables) are created, `/init/init`
    /// is loaded with its traditional arguments, and the init thread is
    /// queued. `None` when the init program is missing, malformed, or
    /// memory runs out.
    pub fn boot(
        regions: &Vec<crate::pmm::MemoryRegion>,
        ramdisk_image: &Vec<u8>,
        console_rows: usize,
        console_cols: usize,
        boot_root_frame: u64,
    ) -> (r: Option<Kernel>)
        requires
            regions@.len() > 0,
            forall|j: int| 0 <= j < regions@.len() ==> (#[trigger] regions@[j]).start < regions@[j].end,
            crate::pmm::highest_address(regions@) < 0x4000_0000_0000,
            exists|j: int|
                0 <= j < regions@.len() && (#[trigger] regions@[j]).usable && regions@[j].end
                    - regions@[j].start >= crate::pmm::bitmap_bytes(
                    crate::pmm::highest_address(regions@),
                ),
            forall|j: int|
                0 <= j < regions@.len() ==> (#[trigger] regions@[j]).end <= crate::pmm::bitmap_bytes(
                    crate::pmm::highest_address(regions@),
                ) / 8 * 64 * 4096,
            0 < console_rows,
            0 < console_cols,
            console_rows * console_cols <= 0x1000_0000,
            crate::ramdisk::tar_wf(ramdisk_image@, 0),
            crate::ramdisk::tar_files(ramdisk_image@, 0).len() < u32::MAX,
        ensures
            match r {
                Option::None => true,
                Option::Some(k) => {
                    &&& k.inv()
                    &&& k.processes@.contains_key(1)
                    &&& k.scheduler@.ready == seq![k.processes@[1].thread]
                    &&& k.threads@.contains_key(k.processes@[1].thread)
                    &&& k.threads@[k.processes@[1].thread].kstack@[crate::scheduler::KSTACK_WORDS
                        - 1] == ENTER_USERSPACE_ENTRY
                },
            },
    {
        let (pmm, _bitmap_region) = PhysicalMemoryManager::new(regions);
        let mut pmm = pmm;
        // back the fixed kernel-heap window (the embedder maps the frames
        // at the heap's kernel-virtual base)
        let heap_frames = match back_heap(&mut pmm, 256) {
            Option::None => {
                return Option::None;
            },
            Option::Some(v) => v,
        };
        let console = crate::console::Console::new(console_rows, console_cols);
        let devfs = crate::devfs::Devfs::init(console, 1);
        let disk = crate::ramdisk::Ramdisk::from_tar(2, ramdisk_image);
        let mut vfs = VirtualFileSystem::new();
        if vfs.mount(1, crate::mounts::MountedFilesystem::Dev(devfs), "dev", 0).is_err() {
            return Option::None;
        }
        if vfs.mount(2, crate::mounts::MountedFilesystem::Disk(disk), "init", 0).is_err() {
            return Option::None;
        }
        let mut threads: BTreeMap<u32, Thread> = BTreeMap::new();
        let idle = Thread::from_func(
            IDLE_ENTRY,
            Option::None,
            Option::Some(String::from_str("idle")),
            Option::None,
            0,
        );
        threads.insert(0, idle);
        let init_thread = Thread::from_func(
            ENTER_USERSPACE_ENTRY,
            Option::Some(1),
            Option::None,
            Option::None,
            1,
        );
        threads.insert(1, init_thread);
        let scheduler = Scheduler::init(0);
        let init = UserProcess::create(boot_root_frame, 1, 1);
        let mut processes = ProcessTable::init();
        processes.add_process(init);
        let mut k = Kernel {
            pmm,
            vfs,
            processes,
            descriptors: BTreeMap::new(),
            next_handle: 0,
            threads,
            scheduler,
            next_pid: 2,
            next_tid: 2,
            fs_base: 0,
            heap_frames,
        };
        proof {
            assert forall|pid2: u32, f: u64|
                k.processes@.contains_key(pid2) && #[trigger] owns_frame(k.processes@[pid2], f)
                    implies k.pmm.frame_in_range(f as int) && k.pmm.frame_used(f as int) by {
                assert(pid2 == 1);
                assert(false);
            }
            assert forall|pid1: u32, pid2: u32, f: u64|
                k.processes@.contains_key(pid1) && k.processes@.contains_key(pid2) && pid1 != pid2
                    && #[trigger] owns_frame(k.processes@[pid1], f) implies !#[trigger] owns_frame(
                k.processes@[pid2],
                f,
            ) by {
                assert(pid1 == 1 && pid2 == 1);
            }
            assert(k.inv());
        }
        // load the init program
        let binary = match crate::mounts::read(&mut k.vfs, "/init/init") {
            Result::Err(_) => {
                return Option::None;
            },
            Result::Ok(b) => b,
        };
        if binary.len() as u64 >= 0x1000_0000_0000 {
            return Option::None;
        }
        let mut args: Vec<Vec<u8>> = Vec::new();
        args.push("/init/init".as_bytes_vec());
        args.push("arg2".as_bytes_vec());
        args.push("arg3".as_bytes_vec());
        let ghost mid = k;
        let mut p = match k.processes.take_process(1) {
            Option::None => {
                proof {
                    assert(false);
                }
                return Option::None;
            },
            Option::Some(p) => p,
        };
        let mut th = match k.threads.remove(&p.thread) {
            Option::None => {
                proof {
                    assert(false);
                }
                return Option::None;
            },
            Option::Some(t) => t,
        };
        let tid = p.thread;
        let outcome = p.execve(&mut k.pmm, &mut th, &binary, &args);
        let exec_ok = match outcome {
            Result::Ok(_) => true,
            Result::Err(_) => false,
        };
        th.set_func(ENTER_USERSPACE_ENTRY);
        k.threads.insert(tid, th);
        k.processes.add_process(p);
        proof {
            assert(mid.processes@.contains_key(1u32));
            assert forall|t: u32|
                k.threads@.contains_key(t) == mid.threads@.contains_key(t) by {
                assert(k.threads@ =~= mid.threads@.remove(tid).insert(tid, k.threads@[tid]));
            }
            assert forall|t: u32| k.threads@.contains_key(t) implies (
            #[trigger] k.threads@[t]).wf() by {
                if t != tid {
                    assert(k.threads@[t] == mid.threads@[t]);
                }
            }
            execve_restore_inv(mid, k, 1);
        }
        if !exec_ok {
            return Option::None;
        }
        k.scheduler.enqueue(tid);
        Option::Some(k)
    }
}

} // verus!
