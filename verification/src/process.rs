//! Processes: the process table, per-process file descriptors, the
//! program break, program loading (execve) and fork.

use vstd::prelude::*;

use crate::aspace::AddressSpace;
use crate::aspace::PageFlags;
use crate::aspace::UserPageView;
use crate::aspace::PAGE_SIZE;
use crate::elf;
use crate::elf::LoadingError;
use crate::elf::ProgramHeaderEntry;
use crate::pmm::PhysicalMemoryManager;
use crate::scheduler::Thread;
use crate::scheduler::KSTACK_WORDS;
use crate::vfs::Inode;
use std::collections::BTreeMap;

verus! {

broadcast use vstd::laws_cmp::group_laws_cmp;

/// Top of the initial user stack (System-V process initialisation).
pub const USER_STACK_TOP: u64 = 0x7fff_ffff_0000;

/// How much stack below the top is mapped ahead of use.
pub const USER_STACK_PRELUDE: u64 = 0x4000;

/// An open file: the inode, the byte offset, and the open flags. Fork
/// shares descriptors, so processes refer to them through numeric handles
/// into the kernel's descriptor table; a read in the parent advances the
/// offset the child sees.
pub struct FileDescriptor {
    pub inode: Inode,
    pub offset: u64,
    pub flags: u32,
}

/// One user process.
pub struct UserProcess {
    /// Open file descriptors: fd number to shared-descriptor handle.
    pub files: BTreeMap<u32, u64>,
    pub next_fd: u32,
    /// The user half of the process's address space.
    pub aspace: AddressSpace,
    /// The primary thread's id.
    pub thread: u32,
    pub pid: u32,
    /// Current program break.
    pub brk: u64,
    /// The break right after loading; `brk` never goes below it.
    pub brk_initial: u64,
    /// Top-level page-table frame, loaded into CR3 on dispatch.
    pub cr3_frame: u64,
}

impl UserProcess {
    pub open spec fn inv(&self) -> bool {
        &&& self.aspace.inv()
        &&& self.brk >= self.brk_initial
        &&& self.cr3_frame == self.aspace@.root_frame
    }

    /// The initial process: reuses the boot page tables (`root_frame`),
    /// has no files open and no program loaded yet.
    pub fn create(root_frame: u64, pid: u32, tid: u32) -> (r: UserProcess)
        ensures
            r.inv(),
            r.pid == pid,
            r.thread == tid,
            r.brk == 0,
            r.brk_initial == 0,
            r.next_fd == 0,
            r.cr3_frame == root_frame,
            r.aspace@.root_frame == root_frame,
            r.files@ == Map::<u32, u64>::empty(),
            r.aspace@.pages == Map::<u64, UserPageView>::empty(),
            r.aspace@.owned == Seq::<u64>::empty(),
    {
        UserProcess {
            files: BTreeMap::new(),
            next_fd: 0,
            aspace: AddressSpace::new(root_frame),
            thread: tid,
            pid,
            brk: 0,
            brk_initial: 0,
            cr3_frame: root_frame,
        }
    }

    /// Allocates a fresh frame and maps `page` to it, user-accessible and
    /// writable with the extra `no_execute` choice, zero-filled. Fails
    /// only when physical memory is exhausted.
    pub fn allocate_user_page(&mut self, pmm: &mut PhysicalMemoryManager, page: u64, no_execute: bool) -> (r: Option<u64>)
        requires
            old(self).inv(),
            old(pmm).wf(),
            !old(self).aspace@.pages.contains_key(page),
            forall|f: u64|
                old(self).aspace@.owned.contains(f) ==> old(pmm).frame_in_range(f as int) && old(
                    pmm,
                ).frame_used(f as int),
        ensures
            final(self).inv(),
            final(pmm).wf(),
            final(pmm).num_frames() == old(pmm).num_frames(),
            final(self).pid == old(self).pid,
            final(self).thread == old(self).thread,
            final(self).brk == old(self).brk,
            final(self).brk_initial == old(self).brk_initial,
            final(self).files@ == old(self).files@,
            final(self).next_fd == old(self).next_fd,
            final(self).cr3_frame == old(self).cr3_frame,
            match r {
                Option::Some(frame) => {
                    &&& !old(pmm).frame_used(frame as int)
                    &&& old(pmm).frame_in_range(frame as int)
                    &&& final(pmm).frame_used(frame as int)
                    &&& final(self).aspace@.pages == old(self).aspace@.pages.insert(
                        page,
                        UserPageView {
                            frame,
                            flags: PageFlags { writable: true, user: true, no_execute },
                            bytes: Seq::new(PAGE_SIZE as nat, |i: int| 0u8),
                        },
                    )
                    &&& final(self).aspace@.owned == old(self).aspace@.owned.push(frame)
                    &&& forall|g: int|
                        old(pmm).frame_in_range(g) && g != frame ==> final(pmm).frame_used(g)
                            == old(pmm).frame_used(g)
                },
                Option::None => {
                    &&& final(self).aspace@ == old(self).aspace@
                    &&& final(pmm)@ == old(pmm)@
                    &&& forall|g: int|
                        final(pmm).frame_in_range(g) ==> final(pmm).frame_used(g)
                },
            },
    {
        let ghost pre_al = *pmm;
        let frame = match pmm.allocate_frame() {
            Option::None => {
                proof {
                    assert forall|g: int| pmm.frame_in_range(g) implies pmm.frame_used(g) by {
                        assert(pre_al.frame_used(g));
                    }
                }
                return Option::None;
            },
            Option::Some(f) => f,
        };
        let mut bytes: Vec<u8> = Vec::new();
        let mut i: usize = 0;
        while i < 4096
            invariant
                0 <= i <= 4096,
                bytes@.len() == i,
                forall|j: int| 0 <= j < i ==> bytes@[j] == 0u8,
            decreases 4096 - i,
        {
            bytes.push(0u8);
            i = i + 1;
        }
        proof {
            assert(bytes@ =~= Seq::new(PAGE_SIZE as nat, |j: int| 0u8));
            if self.aspace@.owned.contains(frame) {
                assert(old(pmm).frame_used(frame as int));
            }
        }
        self.aspace.map_user_page(
            page,
            frame,
            PageFlags { writable: true, user: true, no_execute },
            bytes,
        );
        Option::Some(frame)
    }

    /// Unmaps `page`, freeing its backing frame; a no-op returning false
    /// when the page is not mapped.
    pub fn unmap_page(&mut self, pmm: &mut PhysicalMemoryManager, page: u64) -> (ok: bool)
        requires
            old(self).inv(),
            old(pmm).wf(),
            forall|f: u64|
                old(self).aspace@.owned.contains(f) ==> old(pmm).frame_in_range(f as int) && old(
                    pmm,
                ).frame_used(f as int),
        ensures
            final(self).inv(),
            final(pmm).wf(),
            final(pmm).num_frames() == old(pmm).num_frames(),
            final(self).pid == old(self).pid,
            final(self).brk == old(self).brk,
            final(self).brk_initial == old(self).brk_initial,
            final(self).files@ == old(self).files@,
            final(self).thread == old(self).thread,
            final(self).next_fd == old(self).next_fd,
            final(self).cr3_frame == old(self).cr3_frame,
            ok == old(self).aspace@.pages.contains_key(page),
            if ok {
                ({
                    let frame = old(self).aspace@.pages[page].frame;
                    &&& final(self).aspace@.pages == old(self).aspace@.pages.remove(page)
                    &&& final(self).aspace@.owned.to_multiset() == old(
                        self,
                    ).aspace@.owned.to_multiset().remove(frame)
                    &&& !final(pmm).frame_used(frame as int)
                    &&& forall|g: int|
                        old(pmm).frame_in_range(g) && g != frame ==> final(pmm).frame_used(g)
                            == old(pmm).frame_used(g)
                })
            } else {
                &&& final(self).aspace@ == old(self).aspace@
                &&& final(pmm)@ == old(pmm)@
            },
    {
        let ghost frame_spec = self.aspace@.pages[page].frame;
        match self.aspace.unmap_page(page) {
            Option::None => false,
            Option::Some(frame) => {
                proof {
                    assert(old(self).aspace@.owned.contains(frame));
                }
                pmm.deallocate_frame(frame);
                true
            },
        }
    }
}


/// A program header describes a loadable segment (p_type is PT_LOAD; the
/// low half of the packed field).
pub open spec fn is_load(h: ProgramHeaderEntry) -> bool {
    h.segment_type & 0xffff_ffffu64 == 1u64
}

/// Page-granular mapping flags of a segment: readable maps user, writable
/// maps writable, non-executable maps no-execute (the flags sit in the
/// high half of the packed field).
pub open spec fn seg_flags(h: ProgramHeaderEntry) -> PageFlags {
    let f = h.segment_type >> 32;
    PageFlags { writable: f & 2u64 == 2u64, user: f & 4u64 == 4u64, no_execute: f & 1u64 != 1u64 }
}

/// First and last page of a segment: the pages holding `vaddr` and
/// `vaddr + mem_size`, both included, as the mapper's inclusive range
/// covers them.
pub open spec fn seg_first_page(h: ProgramHeaderEntry) -> u64 {
    h.virtual_address / PAGE_SIZE
}

pub open spec fn seg_last_page(h: ProgramHeaderEntry) -> int {
    (h.virtual_address + h.mem_size) / (PAGE_SIZE as int)
}

pub open spec fn seg_page_count(h: ProgramHeaderEntry) -> int {
    seg_last_page(h) - seg_first_page(h) + 1
}

/// A loadable segment this kernel accepts: its file window inside the
/// image and its memory span inside the lower half, clear of the
/// initial-stack pages. Alignment is free: the loader places each file
/// byte at its virtual address whatever the offsets.
pub open spec fn seg_ok(b: Seq<u8>, h: ProgramHeaderEntry) -> bool {
    &&& h.offset + h.image_size <= b.len()
    &&& h.virtual_address + h.mem_size < USER_STACK_TOP - USER_STACK_PRELUDE - PAGE_SIZE
}

/// Every loadable segment of the parsed table is acceptable.
pub open spec fn segs_ok(b: Seq<u8>, hs: Seq<ProgramHeaderEntry>) -> bool {
    forall|j: int| 0 <= j < hs.len() && is_load(#[trigger] hs[j]) ==> seg_ok(b, hs[j])
}

/// No two loadable segments share a page: every page is backed by one
/// fresh frame, so a page cannot carry parts of two segments.
pub open spec fn segs_disjoint(hs: Seq<ProgramHeaderEntry>) -> bool {
    forall|j1: int, j2: int|
        0 <= j1 < j2 < hs.len() && is_load(#[trigger] hs[j1]) && is_load(#[trigger] hs[j2]) ==> (
        seg_last_page(hs[j1]) < seg_first_page(hs[j2]) || seg_last_page(hs[j2]) < seg_first_page(
            hs[j1],
        ))
}

/// The whole table loads: every loadable segment is acceptable and no two
/// share a page.
pub open spec fn loadable(b: Seq<u8>, hs: Seq<ProgramHeaderEntry>) -> bool {
    &&& segs_ok(b, hs)
    &&& segs_disjoint(hs)
}

/// The bytes page `k` of segment `h` is loaded with: each byte comes from
/// the file image where the page's virtual addresses fall inside the
/// file-backed span, and is zero elsewhere (fresh frames are zero-filled
/// past `image_size` and below `vaddr`).
pub open spec fn seg_page_bytes(b: Seq<u8>, h: ProgramHeaderEntry, k: int) -> Seq<u8> {
    Seq::new(
        PAGE_SIZE as nat,
        |i: int|
            {
                let va = (seg_first_page(h) + k) * (PAGE_SIZE as int) + i;
                if h.virtual_address <= va < h.virtual_address + h.image_size {
                    b[h.offset + (va - h.virtual_address)]
                } else {
                    0u8
                }
            },
    )
}


/// The program break after loading: the highest `vaddr + mem_size` over
/// the loadable segments, zero when there are none.
pub open spec fn spec_brk_of(hs: Seq<ProgramHeaderEntry>) -> int
    decreases hs.len(),
{
    if hs.len() == 0 {
        0
    } else {
        let rest = spec_brk_of(hs.drop_last());
        let h = hs.last();
        if is_load(h) && h.virtual_address + h.mem_size > rest {
            h.virtual_address + h.mem_size
        } else {
            rest
        }
    }
}

/// Offset, inside the initial stack page, where the bytes of argument `i`
/// begin: after argc, the argv pointers, the argv NUL slot, and the empty
/// envp and auxiliary vectors, then each earlier string with its NUL.
pub open spec fn args_off(args: Seq<Seq<u8>>, i: int) -> int
    decreases i,
{
    if i <= 0 {
        8 + 8 * (args.len() as int) + 24
    } else {
        args_off(args, i - 1) + args[i - 1].len() + 1
    }
}

/// The whole initial-stack layout fits the one info page.
pub open spec fn args_fit(args: Seq<Seq<u8>>) -> bool {
    &&& args.len() <= 256
    &&& args_off(args, args.len() as int) <= PAGE_SIZE
}

/// Overwrites page bytes `[off, off + 8)` with the little-endian `v`.
fn put_u64_page(page: &mut Vec<u8>, off: usize, v: u64)
    requires
        old(page)@.len() == PAGE_SIZE,
        off + 8 <= PAGE_SIZE,
    ensures
        final(page)@.len() == PAGE_SIZE,
        elf::spec_u64_at(final(page)@, off as int) == v,
        forall|j: int|
            0 <= j < PAGE_SIZE && !(off <= j < off + 8) ==> final(page)@[j] == old(page)@[j],
{
    let bytes = vstd::bytes::u64_to_le_bytes(v);
    let mut k: usize = 0;
    while k < 8
        invariant
            bytes@ == vstd::bytes::spec_u64_to_le_bytes(v),
            bytes@.len() == 8,
            page@.len() == PAGE_SIZE,
            off + 8 <= PAGE_SIZE,
            0 <= k <= 8,
            forall|j: int| 0 <= j < k ==> page@[off + j] == bytes@[j],
            forall|j: int|
                0 <= j < PAGE_SIZE && !(off <= j < off + 8) ==> page@[j] == old(page)@[j],
        decreases 8 - k,
    {
        page.set(off + k, bytes[k]);
        k = k + 1;
    }
    proof {
        assert(final(page)@.subrange(off as int, off + 8) =~= bytes@);
        vstd::bytes::lemma_auto_spec_u64_to_from_le_bytes();
    }
}

/// Overwrites page bytes `[off, off + data.len())` with `data`.
fn put_bytes_page(page: &mut Vec<u8>, off: usize, data: &Vec<u8>)
    requires
        old(page)@.len() == PAGE_SIZE,
        off + data@.len() <= PAGE_SIZE,
    ensures
        final(page)@.len() == PAGE_SIZE,
        final(page)@.subrange(off as int, off + data@.len()) == data@,
        forall|j: int|
            0 <= j < PAGE_SIZE && !(off <= j < off + data@.len()) ==> final(page)@[j] == old(
                page,
            )@[j],
{
    let n: usize = data.len();
    let mut k: usize = 0;
    while k < n
        invariant
            n == data@.len(),
            page@.len() == PAGE_SIZE,
            off + n <= PAGE_SIZE,
            0 <= k <= n,
            forall|j: int| 0 <= j < k ==> page@[off + j] == data@[j],
            forall|j: int| 0 <= j < PAGE_SIZE && !(off <= j < off + n) ==> page@[j] == old(page)@[j],
        decreases n - k,
    {
        page.set(off + k, data[k]);
        k = k + 1;
    }
    proof {
        assert(final(page)@.subrange(off as int, off + n as int) =~= data@);
    }
}


/// The parsed program-header table of a sound image.
pub open spec fn spec_headers(b: Seq<u8>) -> Seq<ProgramHeaderEntry> {
    Seq::new(
        elf::elf_ph_num(b) as nat,
        |i: int| elf::spec_phdr(b, elf::elf_ph_off(b) + i * elf::elf_ph_size(b)),
    )
}

/// The page of the initial user stack that carries argc, argv and the
/// argument strings.
pub open spec fn stack_info_page() -> u64 {
    USER_STACK_TOP / PAGE_SIZE
}

/// Page `p` belongs to the initial stack: the info page or one of the
/// prelude pages below it.
pub open spec fn is_stack_page(p: u64) -> bool {
    stack_info_page() - 4 <= p <= stack_info_page()
}

/// Page `p` is covered by a loadable segment of `hs`.
pub open spec fn in_load_pages(hs: Seq<ProgramHeaderEntry>, p: u64) -> bool {
    exists|j: int|
        0 <= j < hs.len() && is_load(#[trigger] hs[j]) && seg_first_page(hs[j]) <= p
            <= seg_last_page(hs[j])
}

/// Every page of an acceptable segment lies below the initial-stack pages.
proof fn lemma_seg_page_below_stack(h: ProgramHeaderEntry, k: int)
    requires
        h.virtual_address + h.mem_size < USER_STACK_TOP - USER_STACK_PRELUDE - PAGE_SIZE,
        0 <= k,
        seg_first_page(h) + k <= seg_last_page(h),
    ensures
        seg_first_page(h) + k < stack_info_page() - 4,
{
    let end = h.virtual_address + h.mem_size;
    vstd::arithmetic::div_mod::lemma_div_is_ordered(end as int, 0x7fff_fffe_afff, 4096);
    assert(0x7fff_fffe_afffint / 4096 == 0x7_ffff_ffea);
    assert(stack_info_page() == 0x7_ffff_fff0);
}

proof fn lemma_args_off_mono(args: Seq<Seq<u8>>, i: int, k: int)
    requires
        0 <= i <= k,
    ensures
        args_off(args, i) <= args_off(args, k),
    decreases k,
{
    if i < k {
        lemma_args_off_mono(args, i, k - 1);
    }
}

proof fn lemma_brk_take_step(hs: Seq<ProgramHeaderEntry>, j: int)
    requires
        0 <= j < hs.len(),
    ensures
        spec_brk_of(hs.take(j + 1)) == ({
            let rest = spec_brk_of(hs.take(j));
            let h = hs[j];
            if is_load(h) && h.virtual_address + h.mem_size > rest {
                h.virtual_address + h.mem_size
            } else {
                rest
            }
        }),
{
    assert(hs.take(j + 1).drop_last() =~= hs.take(j));
    assert(hs.take(j + 1).last() == hs[j]);
}

impl UserProcess {
    /// Loads an ELF64 image, replacing the process's program: every prior
    /// user mapping is dropped, the loadable segments are copied in page
    /// by page (each file byte at its virtual address, zero elsewhere),
    /// the break is set past the highest segment, the initial user stack
    /// is built to the System-V convention (argc, the argv pointers, a
    /// NUL slot, empty envp and auxiliary vectors, then the strings), and
    /// the thread's saved context records the entry point in `rbp` and
    /// the user stack top in `rbx`. A malformed header, a segment that
    /// cannot be placed (file window outside the image, span reaching the
    /// stack or the kernel half, or two segments sharing a page), or an
    /// oversized argument list fails, leaving the user mappings cleared
    /// and everything else unchanged; running out of frames fails with
    /// the image partially mapped, the break unchanged, and the frame
    /// allocator exhausted.
    pub fn execve(
        &mut self,
        pmm: &mut PhysicalMemoryManager,
        thread: &mut Thread,
        binary: &Vec<u8>,
        args: &Vec<Vec<u8>>,
    ) -> (r: Result<(), LoadingError>)
        requires
            old(self).inv(),
            old(pmm).wf(),
            old(thread).wf(),
            binary@.len() < 0x1000_0000_0000,
            forall|f: u64|
                old(self).aspace@.owned.contains(f) ==> old(pmm).frame_in_range(f as int) && old(
                    pmm,
                ).frame_used(f as int),
        ensures
            final(self).inv(),
            final(pmm).wf(),
            final(thread).wf(),
            final(pmm).num_frames() == old(pmm).num_frames(),
            final(self).pid == old(self).pid,
            final(self).thread == old(self).thread,
            final(self).files@ == old(self).files@,
            final(self).next_fd == old(self).next_fd,
            final(self).cr3_frame == old(self).cr3_frame,
            forall|g: int|
                old(pmm).frame_in_range(g) && old(pmm).frame_used(g) ==> final(pmm).frame_used(g),
            forall|f: u64|
                final(self).aspace@.owned.contains(f) ==> final(pmm).frame_in_range(f as int)
                    && final(pmm).frame_used(f as int),
            forall|f: u64|
                final(self).aspace@.owned.contains(f) && !old(self).aspace@.owned.contains(f)
                    ==> !old(pmm).frame_used(f as int),
            final(thread).process == old(thread).process,
            final(thread).tid == old(thread).tid,
            final(thread).cr3_frame == old(thread).cr3_frame,
            (r == Result::<(), LoadingError>::Err(LoadingError::InvalidHeader)
                <==> !elf::elf_layout_ok(binary@)),
            (r == Result::<(), LoadingError>::Err(LoadingError::UnloadableSegment) <==> (
            elf::elf_layout_ok(binary@) && !loadable(binary@, spec_headers(binary@)))),
            (r == Result::<(), LoadingError>::Err(LoadingError::ArgumentsTooLong) <==> (
            elf::elf_layout_ok(binary@) && loadable(binary@, spec_headers(binary@)) && !args_fit(
                args@.map_values(|v: Vec<u8>| v@),
            ))),
            (r == Result::<(), LoadingError>::Err(LoadingError::InvalidHeader) || r == Result::<
                (),
                LoadingError,
            >::Err(LoadingError::UnloadableSegment) || r == Result::<(), LoadingError>::Err(
                LoadingError::ArgumentsTooLong,
            )) ==> (final(self).aspace@.pages == Map::<u64, UserPageView>::empty()
                && final(self).brk == old(self).brk
                && final(self).brk_initial == old(self).brk_initial
                && *final(thread) == *old(thread)),
            r == Result::<(), LoadingError>::Err(LoadingError::OutOfMemory) ==> (final(self).brk
                == old(self).brk && final(self).brk_initial == old(self).brk_initial
                && *final(thread) == *old(thread) && forall|g: int|
                final(pmm).frame_in_range(g) ==> final(pmm).frame_used(g)),
            r is Ok ==> ({
                let hs = spec_headers(binary@);
                let argseq = args@.map_values(|v: Vec<u8>| v@);
                let stk = final(self).aspace@.pages[stack_info_page()].bytes;
                &&& final(self).brk == spec_brk_of(hs)
                &&& final(self).brk_initial == spec_brk_of(hs)
                &&& final(thread).context.rbp == elf::elf_entry(binary@)
                &&& final(thread).context.rbx == USER_STACK_TOP
                &&& final(thread).kstack@ == old(thread).kstack@
                &&& final(self).aspace@.pages.contains_key(stack_info_page())
                &&& elf::spec_u64_at(stk, 0) == args@.len()
                &&& forall|i: int|
                    0 <= i < argseq.len() ==> elf::spec_u64_at(stk, 8 + 8 * i) == USER_STACK_TOP
                        + args_off(argseq, i)
                &&& forall|q: int|
                    8 + 8 * (argseq.len() as int) <= q < 8 + 8 * (argseq.len() as int) + 24
                        ==> stk[q] == 0u8
                &&& forall|i: int|
                    0 <= i < argseq.len() ==> #[trigger] stk.subrange(
                        args_off(argseq, i),
                        args_off(argseq, i) + argseq[i].len(),
                    ) == argseq[i]
                &&& forall|i: int|
                    0 <= i < argseq.len() ==> stk[args_off(argseq, i) + argseq[i].len()] == 0u8
                &&& forall|k: u64|
                    stack_info_page() - 4 <= k < stack_info_page()
                        ==> #[trigger] final(self).aspace@.pages.contains_key(k)
                &&& forall|j: int, k: int|
                    0 <= j < hs.len() && is_load(#[trigger] hs[j]) && 0 <= k < seg_page_count(
                        hs[j],
                    ) ==> #[trigger] final(self).aspace@.pages.contains_key(
                        ((seg_first_page(hs[j]) + k)) as u64,
                    )
                &&& forall|j: int, k: int|
                    0 <= j < hs.len() && is_load(#[trigger] hs[j]) && 0 <= k < seg_page_count(
                        hs[j],
                    ) ==> (#[trigger] final(self).aspace@.pages[((seg_first_page(hs[j])
                        + k)) as u64]).bytes == seg_page_bytes(binary@, hs[j], k)
                &&& forall|j: int, k: int|
                    0 <= j < hs.len() && is_load(#[trigger] hs[j]) && 0 <= k < seg_page_count(
                        hs[j],
                    ) ==> (#[trigger] final(self).aspace@.pages[((seg_first_page(hs[j])
                        + k)) as u64]).flags == seg_flags(hs[j])
                &&& forall|p: u64|
                    final(self).aspace@.pages.contains_key(p) ==> (is_stack_page(p)
                        || in_load_pages(hs, p))
            }),
    {
        let ghost hs = spec_headers(binary@);
        let ghost argseq = args@.map_values(|v: Vec<u8>| v@);
        let headers = match elf::parse_program_headers(binary) {
            Result::Err(e) => {
                self.aspace.clear_user();
                return Result::Err(LoadingError::InvalidHeader);
            },
            Result::Ok(v) => v,
        };
        proof {
            assert(headers@ =~= hs);
        }
        let blen: usize = binary.len();
        // every loadable segment must be placeable
        let mut j: usize = 0;
        while j < headers.len()
            invariant
                headers@ == hs,
                hs == spec_headers(binary@),
                elf::elf_layout_ok(binary@),
                blen == binary@.len(),
                0 <= j <= hs.len(),
                *self == *old(self),
                *pmm == *old(pmm),
                *thread == *old(thread),
                self.inv(),
                pmm.wf(),
                thread.wf(),
                forall|f: u64|
                    self.aspace@.owned.contains(f) ==> pmm.frame_in_range(f as int)
                        && pmm.frame_used(f as int),
                forall|i: int| 0 <= i < j && is_load(#[trigger] hs[i]) ==> seg_ok(binary@, hs[i]),
            decreases hs.len() - j,
        {
            let h = headers[j];
            proof {
                let st = h.segment_type;
                assert(st & 0xffff_ffffu64 <= 0xffff_ffffu64) by (bit_vector);
            }
            let lo: u32 = (h.segment_type & 0xffff_ffff) as u32;
            if lo == 1 {
                proof {
                    assert(is_load(hs[j as int]));
                }
                let bad = h.offset > blen as u64 || h.image_size > blen as u64 - h.offset
                    || h.virtual_address >= USER_STACK_TOP - USER_STACK_PRELUDE - 4096
                    || h.mem_size >= USER_STACK_TOP - USER_STACK_PRELUDE - 4096
                        - h.virtual_address;
                if bad {
                    self.aspace.clear_user();
                    proof {
                        assert(!seg_ok(binary@, hs[j as int]));
                        assert(!loadable(binary@, hs));
                        assert forall|f: u64| self.aspace@.owned.contains(f) implies
                            pmm.frame_in_range(f as int) && pmm.frame_used(f as int) by {}
                    }
                    return Result::Err(LoadingError::UnloadableSegment);
                }
            } else {
                proof {
                    assert(!is_load(hs[j as int]));
                }
            }
            j = j + 1;
        }
        // no two loadable segments may share a page
        let mut j2: usize = 0;
        while j2 < headers.len()
            invariant
                headers@ == hs,
                hs == spec_headers(binary@),
                elf::elf_layout_ok(binary@),
                segs_ok(binary@, hs),
                blen == binary@.len(),
                0 <= j2 <= hs.len(),
                *self == *old(self),
                *pmm == *old(pmm),
                *thread == *old(thread),
                self.inv(),
                pmm.wf(),
                thread.wf(),
                forall|f: u64|
                    self.aspace@.owned.contains(f) ==> pmm.frame_in_range(f as int)
                        && pmm.frame_used(f as int),
                forall|a: int, b: int|
                    0 <= a < b < j2 && is_load(#[trigger] hs[a]) && is_load(#[trigger] hs[b]) ==> (
                    seg_last_page(hs[a]) < seg_first_page(hs[b]) || seg_last_page(hs[b])
                        < seg_first_page(hs[a])),
            decreases hs.len() - j2,
        {
            let hb = headers[j2];
            proof {
                let st = hb.segment_type;
                assert(st & 0xffff_ffffu64 <= 0xffff_ffffu64) by (bit_vector);
            }
            let lob: u32 = (hb.segment_type & 0xffff_ffff) as u32;
            if lob == 1 {
                proof {
                    assert(is_load(hs[j2 as int]));
                    assert(seg_ok(binary@, hs[j2 as int]));
                }
                let firstb: u64 = hb.virtual_address / 4096;
                let lastb: u64 = (hb.virtual_address + hb.mem_size) / 4096;
                let mut j1: usize = 0;
                while j1 < j2
                    invariant
                        headers@ == hs,
                        hs == spec_headers(binary@),
                        elf::elf_layout_ok(binary@),
                        segs_ok(binary@, hs),
                        blen == binary@.len(),
                        0 <= j1 <= j2 < hs.len(),
                        hb == hs[j2 as int],
                        is_load(hb),
                        firstb == seg_first_page(hb),
                        lastb == seg_last_page(hb),
                        *self == *old(self),
                        *pmm == *old(pmm),
                        *thread == *old(thread),
                        self.inv(),
                        pmm.wf(),
                        thread.wf(),
                        forall|f: u64|
                            self.aspace@.owned.contains(f) ==> pmm.frame_in_range(f as int)
                                && pmm.frame_used(f as int),
                        forall|a: int, b: int|
                            0 <= a < b < j2 && is_load(#[trigger] hs[a]) && is_load(
                                #[trigger] hs[b],
                            ) ==> (seg_last_page(hs[a]) < seg_first_page(hs[b]) || seg_last_page(
                                hs[b],
                            ) < seg_first_page(hs[a])),
                        forall|a: int|
                            0 <= a < j1 && is_load(#[trigger] hs[a]) ==> (seg_last_page(hs[a])
                                < seg_first_page(hs[j2 as int]) || seg_last_page(hs[j2 as int])
                                < seg_first_page(hs[a])),
                    decreases j2 - j1,
                {
                    let ha = headers[j1];
                    proof {
                        let st = ha.segment_type;
                        assert(st & 0xffff_ffffu64 <= 0xffff_ffffu64) by (bit_vector);
                    }
                    let loa: u32 = (ha.segment_type & 0xffff_ffff) as u32;
                    if loa == 1 {
                        proof {
                            assert(is_load(hs[j1 as int]));
                            assert(seg_ok(binary@, hs[j1 as int]));
                        }
                        let firsta: u64 = ha.virtual_address / 4096;
                        let lasta: u64 = (ha.virtual_address + ha.mem_size) / 4096;
                        if lasta >= firstb && lastb >= firsta {
                            self.aspace.clear_user();
                            proof {
                                assert(!segs_disjoint(hs));
                                assert(!loadable(binary@, hs));
                                assert forall|f: u64| self.aspace@.owned.contains(f) implies
                                    pmm.frame_in_range(f as int) && pmm.frame_used(f as int) by {}
                            }
                            return Result::Err(LoadingError::UnloadableSegment);
                        }
                    } else {
                        proof {
                            assert(!is_load(hs[j1 as int]));
                        }
                    }
                    j1 = j1 + 1;
                }
            } else {
                proof {
                    assert(!is_load(hs[j2 as int]));
                }
            }
            j2 = j2 + 1;
        }
        // the argument list must fit the one info page
        let argc: usize = args.len();
        if argc > 256 {
            self.aspace.clear_user();
            proof {
                assert forall|f: u64| self.aspace@.owned.contains(f) implies pmm.frame_in_range(
                    f as int,
                ) && pmm.frame_used(f as int) by {}
            }
            return Result::Err(LoadingError::ArgumentsTooLong);
        }
        let mut off: usize = 8 + 8 * argc + 24;
        let mut i: usize = 0;
        while i < argc
            invariant
                argc == argseq.len(),
                argseq == args@.map_values(|v: Vec<u8>| v@),
                argc <= 256,
                0 <= i <= argc,
                headers@ == hs,
                hs == spec_headers(binary@),
                *self == *old(self),
                *pmm == *old(pmm),
                *thread == *old(thread),
                self.inv(),
                pmm.wf(),
                thread.wf(),
                elf::elf_layout_ok(binary@),
                loadable(binary@, hs),
                forall|f: u64|
                    self.aspace@.owned.contains(f) ==> pmm.frame_in_range(f as int)
                        && pmm.frame_used(f as int),
                off == args_off(argseq, i as int),
                off <= 4096,
            decreases argc - i,
        {
            let l: usize = args[i].len();
            if l >= 4096 - off {
                proof {
                    lemma_args_off_mono(argseq, i + 1, argc as int);
                }
                self.aspace.clear_user();
                proof {
                    assert forall|f: u64| self.aspace@.owned.contains(f) implies pmm.frame_in_range(
                        f as int,
                    ) && pmm.frame_used(f as int) by {}
                }
                return Result::Err(LoadingError::ArgumentsTooLong);
            }
            off = off + l + 1;
            i = i + 1;
        }
        proof {
            assert(args_fit(argseq));
        }
        let stack_total: usize = off;

        // drop the previous program's mappings
        self.aspace.clear_user();

        // load the segments, page by page
        let mut j: usize = 0;
        while j < headers.len()
            invariant
                0 <= j <= hs.len(),
                blen == binary@.len(),
                blen < 0x1000_0000_0000,
                headers@ == hs,
                hs == spec_headers(binary@),
                elf::elf_layout_ok(binary@),
                loadable(binary@, hs),
                args_fit(argseq),
                argseq == args@.map_values(|v: Vec<u8>| v@),
                argc == argseq.len(),
                argc <= 256,
                self.inv(),
                pmm.wf(),
                pmm.num_frames() == old(pmm).num_frames(),
                self.pid == old(self).pid,
                self.thread == old(self).thread,
                self.files@ == old(self).files@,
                self.next_fd == old(self).next_fd,
                self.cr3_frame == old(self).cr3_frame,
                self.brk == old(self).brk,
                self.brk_initial == old(self).brk_initial,
                *thread == *old(thread),
                thread.wf(),
                forall|gg2: int|
                    old(pmm).frame_in_range(gg2) && old(pmm).frame_used(gg2) ==> pmm.frame_used(
                        gg2,
                    ),
                forall|f2: u64|
                    self.aspace@.owned.contains(f2) ==> pmm.frame_in_range(f2 as int)
                        && pmm.frame_used(f2 as int),
                forall|f2: u64|
                    self.aspace@.owned.contains(f2) && !old(self).aspace@.owned.contains(f2) ==> !old(
                        pmm,
                    ).frame_used(f2 as int),
                forall|ji2: int, k2: int|
                    0 <= ji2 < j && is_load(#[trigger] hs[ji2]) && 0 <= k2 < seg_page_count(
                        hs[ji2],
                    ) ==> #[trigger] self.aspace@.pages.contains_key(
                        ((seg_first_page(hs[ji2]) + k2)) as u64,
                    ),
                forall|ji2: int, k2: int|
                    0 <= ji2 < j && is_load(#[trigger] hs[ji2]) && 0 <= k2 < seg_page_count(
                        hs[ji2],
                    ) ==> (#[trigger] self.aspace@.pages[((seg_first_page(hs[ji2]) + k2)) as u64]).bytes
                        == seg_page_bytes(binary@, hs[ji2], k2),
                forall|ji2: int, k2: int|
                    0 <= ji2 < j && is_load(#[trigger] hs[ji2]) && 0 <= k2 < seg_page_count(
                        hs[ji2],
                    ) ==> (#[trigger] self.aspace@.pages[((seg_first_page(hs[ji2]) + k2)) as u64]).flags
                        == seg_flags(hs[ji2]),
                forall|p2: u64|
                    self.aspace@.pages.contains_key(p2) ==> exists|ji: int|
                        0 <= ji < j && is_load(#[trigger] hs[ji]) && seg_first_page(hs[ji]) <= p2
                            <= seg_last_page(hs[ji]),
                forall|ji2: int, k2: int|
                    !(0 <= ji2 < j) ==> (0 <= ji2 < hs.len() && is_load(#[trigger] hs[ji2]) && 0
                        <= k2 < seg_page_count(hs[ji2])
                        ==> !#[trigger] self.aspace@.pages.contains_key(
                        ((seg_first_page(hs[ji2]) + k2)) as u64,
                    )) || (0 <= ji2 < j),
            decreases hs.len() - j,
        {
            let h = headers[j];
            proof {
                let st = h.segment_type;
                assert(st & 0xffff_ffffu64 <= 0xffff_ffffu64) by (bit_vector);
            }
            let lo: u32 = (h.segment_type & 0xffff_ffff) as u32;
            if lo == 1 {
                proof {
                    assert(is_load(hs[j as int]));
                    assert(seg_ok(binary@, hs[j as int]));
                    vstd::arithmetic::div_mod::lemma_div_is_ordered(
                        h.virtual_address as int,
                        (h.virtual_address + h.mem_size) as int,
                        4096,
                    );
                }
                let flags_raw: u64 = h.segment_type >> 32;
                let flags = PageFlags {
                    writable: flags_raw & 2 == 2,
                    user: flags_raw & 4 == 4,
                    no_execute: flags_raw & 1 != 1,
                };
                let first_page: u64 = h.virtual_address / 4096;
                let last_page: u64 = (h.virtual_address + h.mem_size) / 4096;
                let mut pg: u64 = first_page;
                while pg <= last_page
                    invariant
                        0 <= j < hs.len(),
                        h == hs[j as int],
                        is_load(h),
                        flags == seg_flags(h),
                        first_page == seg_first_page(h),
                        last_page == seg_last_page(h),
                        first_page <= pg <= last_page + 1,
                        blen == binary@.len(),
                        blen < 0x1000_0000_0000,
                        headers@ == hs,
                        hs == spec_headers(binary@),
                        elf::elf_layout_ok(binary@),
                        loadable(binary@, hs),
                        args_fit(argseq),
                        argseq == args@.map_values(|v: Vec<u8>| v@),
                        argc == argseq.len(),
                        argc <= 256,
                        self.inv(),
                        pmm.wf(),
                        pmm.num_frames() == old(pmm).num_frames(),
                        self.pid == old(self).pid,
                        self.thread == old(self).thread,
                        self.files@ == old(self).files@,
                        self.next_fd == old(self).next_fd,
                        self.cr3_frame == old(self).cr3_frame,
                        self.brk == old(self).brk,
                        self.brk_initial == old(self).brk_initial,
                        *thread == *old(thread),
                        thread.wf(),
                        forall|gg2: int|
                            old(pmm).frame_in_range(gg2) && old(pmm).frame_used(gg2) ==> pmm.frame_used(
                                gg2,
                            ),
                        forall|f2: u64|
                            self.aspace@.owned.contains(f2) ==> pmm.frame_in_range(f2 as int)
                                && pmm.frame_used(f2 as int),
                        forall|f2: u64|
                            self.aspace@.owned.contains(f2) && !old(self).aspace@.owned.contains(f2) ==> !old(
                                pmm,
                            ).frame_used(f2 as int),
                        forall|ji2: int, k2: int|
                            0 <= ji2 < j && is_load(#[trigger] hs[ji2]) && 0 <= k2 < seg_page_count(
                                hs[ji2],
                            ) ==> #[trigger] self.aspace@.pages.contains_key(
                                ((seg_first_page(hs[ji2]) + k2)) as u64,
                            ),
                        forall|ji2: int, k2: int|
                            0 <= ji2 < j && is_load(#[trigger] hs[ji2]) && 0 <= k2 < seg_page_count(
                                hs[ji2],
                            ) ==> (#[trigger] self.aspace@.pages[((seg_first_page(hs[ji2]) + k2)) as u64]).bytes
                                == seg_page_bytes(binary@, hs[ji2], k2),
                        forall|ji2: int, k2: int|
                            0 <= ji2 < j && is_load(#[trigger] hs[ji2]) && 0 <= k2 < seg_page_count(
                                hs[ji2],
                            ) ==> (#[trigger] self.aspace@.pages[((seg_first_page(hs[ji2]) + k2)) as u64]).flags
                                == seg_flags(hs[ji2]),
                        forall|p2: u64|
                            self.aspace@.pages.contains_key(p2) ==> (exists|ji: int|
                                0 <= ji < j && is_load(#[trigger] hs[ji]) && seg_first_page(hs[ji])
                                    <= p2 <= seg_last_page(hs[ji])) || (first_page <= p2 < pg),
                        forall|k2: int|
                            0 <= k2 < pg - first_page
                                ==> #[trigger] self.aspace@.pages.contains_key(
                                ((first_page + k2)) as u64,
                            ),
                        forall|k2: int|
                            0 <= k2 < pg - first_page ==> (#[trigger] self.aspace@.pages[((
                            first_page + k2)) as u64]).bytes == seg_page_bytes(binary@, h, k2),
                        forall|k2: int|
                            0 <= k2 < pg - first_page ==> (#[trigger] self.aspace@.pages[((
                            first_page + k2)) as u64]).flags == seg_flags(h),
                    decreases last_page + 1 - pg,
                {
                    let ghost pre_a = *pmm;
                    let frame = match pmm.allocate_frame() {
                        Option::None => {
                            proof {
                                assert forall|f: u64| self.aspace@.owned.contains(f) implies
                                    pmm.frame_in_range(f as int) && pmm.frame_used(f as int) by {
                                    assert(pre_a.frame_in_range(f as int) && pre_a.frame_used(
                                        f as int,
                                    ));
                                    assert(pmm@ == pre_a@);
                                }
                                assert forall|g: int| pmm.frame_in_range(g) implies
                                    pmm.frame_used(g) by {
                                    assert(pre_a.frame_used(g));
                                }
                            }
                            return Result::Err(LoadingError::OutOfMemory);
                        },
                        Option::Some(f) => f,
                    };
                    // the page's bytes: file contents where the virtual
                    // addresses fall inside the file-backed span, zero
                    // elsewhere
                    proof {
                        assert(pg * 4096 <= h.virtual_address + h.mem_size) by (nonlinear_arith)
                            requires
                                pg <= (h.virtual_address + h.mem_size) / 4096,
                                h.virtual_address + h.mem_size >= 0;
                    }
                    let ghost spb = seg_page_bytes(binary@, h, pg - first_page);
                    let page_va: u64 = pg * 4096;
                    let mut bytes: Vec<u8> = Vec::new();
                    let mut bi: usize = 0;
                    while bi < 4096
                        invariant
                            0 <= bi <= 4096,
                            bytes@.len() == bi,
                            blen == binary@.len(),
                            spb == seg_page_bytes(binary@, h, pg as int - first_page),
                            first_page == seg_first_page(h),
                            first_page <= pg,
                            page_va == pg * 4096,
                            seg_ok(binary@, h),
                            page_va + 4096 < 0x8000_0000_0000_0000,
                            bytes@ == spb.take(bi as int),
                        decreases 4096 - bi,
                    {
                        let va: u64 = page_va + bi as u64;
                        proof {
                            assert((seg_first_page(h) + (pg as int - first_page)) * (
                            PAGE_SIZE as int) + bi == va) by (nonlinear_arith)
                                requires
                                    page_va == pg * 4096,
                                    va == page_va + bi,
                                    seg_first_page(h) <= pg,
                                    seg_first_page(h) + (pg as int - first_page) == pg as int,
                                    first_page == seg_first_page(h),
                                    PAGE_SIZE == 4096u64;
                        }
                        let byte: u8 = if va >= h.virtual_address && va - h.virtual_address
                            < h.image_size {
                            binary[(h.offset + (va - h.virtual_address)) as usize]
                        } else {
                            0u8
                        };
                        bytes.push(byte);
                        proof {
                            assert(bytes@ =~= spb.take(bi + 1));
                        }
                        bi = bi + 1;
                    }
                    proof {
                        assert(bytes@ =~= spb);
                        if self.aspace@.owned.contains(frame) {
                            assert(pre_a.frame_used(frame as int));
                            assert(!pre_a.frame_used(frame as int));
                            assert(false);
                        }
                        // the page is not yet mapped: earlier segments are
                        // page-disjoint and this segment's earlier pages
                        // sit below pg
                        if self.aspace@.pages.contains_key(pg) {
                            let ji = choose|ji: int|
                                (0 <= ji < j && is_load(#[trigger] hs[ji]) && seg_first_page(
                                    hs[ji],
                                ) <= pg <= seg_last_page(hs[ji])) || (first_page <= pg < pg);
                            if 0 <= ji < j && is_load(hs[ji]) && seg_first_page(hs[ji]) <= pg
                                <= seg_last_page(hs[ji]) {
                                assert(seg_last_page(hs[ji]) < seg_first_page(hs[j as int])
                                    || seg_last_page(hs[j as int]) < seg_first_page(hs[ji]));
                                assert(false);
                            }
                            assert(false);
                        }
                    }
                    let ghost pre_owned_a = self.aspace@.owned;
                    let ghost pre_pages_a = self.aspace@.pages;
                    self.aspace.map_user_page(pg, frame, flags, bytes);
                    proof {
                        assert forall|f: u64| self.aspace@.owned.contains(f) implies
                            pmm.frame_in_range(f as int) && pmm.frame_used(f as int) by {
                            let jj = choose|jj: int|
                                0 <= jj < self.aspace@.owned.len() && self.aspace@.owned[jj] == f;
                            if jj < self.aspace@.owned.len() - 1 {
                                assert(pre_owned_a[jj] == f);
                                assert(pre_owned_a.contains(f));
                                assert(pre_a.frame_used(f as int));
                                assert(f != frame);
                                assert(pmm.frame_used(f as int));
                            } else {
                                assert(f == frame);
                                assert(pmm.frame_used(f as int));
                            }
                        }
                        assert forall|p2: u64| self.aspace@.pages.contains_key(p2) implies (
                        exists|ji: int|
                            0 <= ji < j && is_load(#[trigger] hs[ji]) && seg_first_page(hs[ji])
                                <= p2 <= seg_last_page(hs[ji])) || (first_page <= p2 < pg + 1) by {
                            if p2 != pg {
                                assert(pre_pages_a.contains_key(p2));
                            }
                        }
                        assert forall|ji2: int, k2: int|
                            0 <= ji2 < hs.len() && is_load(#[trigger] hs[ji2]) && 0 <= k2
                                < seg_page_count(hs[ji2]) && self.aspace@.pages.contains_key(
                                ((seg_first_page(hs[ji2]) + k2)) as u64,
                            ) && ((seg_first_page(hs[ji2]) + k2)) as u64 != pg implies (
                        #[trigger] self.aspace@.pages[((seg_first_page(hs[ji2]) + k2)) as u64])
                            == pre_pages_a[((seg_first_page(hs[ji2]) + k2)) as u64] by {}
                    }
                    pg = pg + 1;
                }
            } else {
                proof {
                    assert(!is_load(hs[j as int]));
                }
            }
            j = j + 1;
        }
        proof {
            assert forall|p2: u64| self.aspace@.pages.contains_key(p2) implies in_load_pages(
                hs,
                p2,
            ) by {}
        }

        // the break: past the highest loaded segment
        let mut brk: u64 = 0;
        let mut j: usize = 0;
        while j < headers.len()
            invariant
                0 <= j <= hs.len(),
                blen == binary@.len(),
                blen < 0x1000_0000_0000,
                headers@ == hs,
                hs == spec_headers(binary@),
                elf::elf_layout_ok(binary@),
                loadable(binary@, hs),
                args_fit(argseq),
                argseq == args@.map_values(|v: Vec<u8>| v@),
                argc == argseq.len(),
                argc <= 256,
                self.inv(),
                pmm.wf(),
                pmm.num_frames() == old(pmm).num_frames(),
                self.pid == old(self).pid,
                self.thread == old(self).thread,
                self.files@ == old(self).files@,
                self.next_fd == old(self).next_fd,
                self.cr3_frame == old(self).cr3_frame,
                self.brk == old(self).brk,
                self.brk_initial == old(self).brk_initial,
                *thread == *old(thread),
                thread.wf(),
                forall|gg2: int|
                    old(pmm).frame_in_range(gg2) && old(pmm).frame_used(gg2) ==> pmm.frame_used(
                        gg2,
                    ),
                forall|f2: u64|
                    self.aspace@.owned.contains(f2) ==> pmm.frame_in_range(f2 as int)
                        && pmm.frame_used(f2 as int),
                forall|f2: u64|
                    self.aspace@.owned.contains(f2) && !old(self).aspace@.owned.contains(f2) ==> !old(
                        pmm,
                    ).frame_used(f2 as int),
                forall|ji2: int, k2: int|
                    0 <= ji2 < hs.len() && is_load(#[trigger] hs[ji2]) && 0 <= k2 < seg_page_count(
                        hs[ji2],
                    ) ==> #[trigger] self.aspace@.pages.contains_key(
                        ((seg_first_page(hs[ji2]) + k2)) as u64,
                    ),
                forall|ji2: int, k2: int|
                    0 <= ji2 < hs.len() && is_load(#[trigger] hs[ji2]) && 0 <= k2 < seg_page_count(
                        hs[ji2],
                    ) ==> (#[trigger] self.aspace@.pages[((seg_first_page(hs[ji2]) + k2)) as u64]).bytes
                        == seg_page_bytes(binary@, hs[ji2], k2),
                forall|ji2: int, k2: int|
                    0 <= ji2 < hs.len() && is_load(#[trigger] hs[ji2]) && 0 <= k2 < seg_page_count(
                        hs[ji2],
                    ) ==> (#[trigger] self.aspace@.pages[((seg_first_page(hs[ji2]) + k2)) as u64]).flags
                        == seg_flags(hs[ji2]),
                forall|p2: u64| self.aspace@.pages.contains_key(p2) ==> in_load_pages(hs, p2),
                brk == spec_brk_of(hs.take(j as int)),
                brk < USER_STACK_TOP,
            decreases hs.len() - j,
        {
            let h = headers[j];
            proof {
                let st = h.segment_type;
                assert(st & 0xffff_ffffu64 <= 0xffff_ffffu64) by (bit_vector);
            }
            let lo: u32 = (h.segment_type & 0xffff_ffff) as u32;
            proof {
                lemma_brk_take_step(hs, j as int);
                if lo == 1 {
                    assert(is_load(hs[j as int]));
                    assert(seg_ok(binary@, hs[j as int]));
                } else {
                    assert(!is_load(hs[j as int]));
                }
            }
            if lo == 1 {
                let end: u64 = h.virtual_address + h.mem_size;
                if end > brk {
                    brk = end;
                }
            }
            j = j + 1;
        }
        proof {
            assert(hs.take(hs.len() as int) =~= hs);
        }

        // the initial user stack: the info page first
        let mut stk: Vec<u8> = Vec::new();
        let mut z: usize = 0;
        while z < 4096
            invariant
                0 <= z <= 4096,
                stk@.len() == z,
                forall|q: int| 0 <= q < z ==> stk@[q] == 0u8,
            decreases 4096 - z,
        {
            stk.push(0u8);
            z = z + 1;
        }
        put_u64_page(&mut stk, 0, argc as u64);
        let mut off: usize = 8 + 8 * argc + 24;
        let mut i: usize = 0;
        proof {
            lemma_args_off_mono(argseq, 0, argc as int);
            assert forall|q: int|
                0 <= q < argc implies args_off(argseq, q) >= 8 + 8 * (argc as int) + 24 by {
                lemma_args_off_mono(argseq, 0, q);
            }
        }
        while i < argc
            invariant
                0 <= i <= argc,
                blen == binary@.len(),
                blen < 0x1000_0000_0000,
                headers@ == hs,
                hs == spec_headers(binary@),
                elf::elf_layout_ok(binary@),
                loadable(binary@, hs),
                args_fit(argseq),
                argseq == args@.map_values(|v: Vec<u8>| v@),
                argc == argseq.len(),
                argc <= 256,
                self.inv(),
                pmm.wf(),
                pmm.num_frames() == old(pmm).num_frames(),
                self.pid == old(self).pid,
                self.thread == old(self).thread,
                self.files@ == old(self).files@,
                self.next_fd == old(self).next_fd,
                self.cr3_frame == old(self).cr3_frame,
                self.brk == old(self).brk,
                self.brk_initial == old(self).brk_initial,
                *thread == *old(thread),
                thread.wf(),
                forall|gg2: int|
                    old(pmm).frame_in_range(gg2) && old(pmm).frame_used(gg2) ==> pmm.frame_used(
                        gg2,
                    ),
                forall|f2: u64|
                    self.aspace@.owned.contains(f2) ==> pmm.frame_in_range(f2 as int)
                        && pmm.frame_used(f2 as int),
                forall|f2: u64|
                    self.aspace@.owned.contains(f2) && !old(self).aspace@.owned.contains(f2) ==> !old(
                        pmm,
                    ).frame_used(f2 as int),
                forall|ji2: int, k2: int|
                    0 <= ji2 < hs.len() && is_load(#[trigger] hs[ji2]) && 0 <= k2 < seg_page_count(
                        hs[ji2],
                    ) ==> #[trigger] self.aspace@.pages.contains_key(
                        ((seg_first_page(hs[ji2]) + k2)) as u64,
                    ),
                forall|ji2: int, k2: int|
                    0 <= ji2 < hs.len() && is_load(#[trigger] hs[ji2]) && 0 <= k2 < seg_page_count(
                        hs[ji2],
                    ) ==> (#[trigger] self.aspace@.pages[((seg_first_page(hs[ji2]) + k2)) as u64]).bytes
                        == seg_page_bytes(binary@, hs[ji2], k2),
                forall|ji2: int, k2: int|
                    0 <= ji2 < hs.len() && is_load(#[trigger] hs[ji2]) && 0 <= k2 < seg_page_count(
                        hs[ji2],
                    ) ==> (#[trigger] self.aspace@.pages[((seg_first_page(hs[ji2]) + k2)) as u64]).flags
                        == seg_flags(hs[ji2]),
                forall|p2: u64| self.aspace@.pages.contains_key(p2) ==> in_load_pages(hs, p2),
                brk == spec_brk_of(hs),
                brk < USER_STACK_TOP,
                off == args_off(argseq, i as int),
                off <= 4096,
                stk@.len() == PAGE_SIZE,
                elf::spec_u64_at(stk@, 0) == argc as u64,
                forall|q: int|
                    0 <= q < argc ==> args_off(argseq, q) >= 8 + 8 * (argc as int) + 24,
                forall|q: int|
                    0 <= q < i ==> elf::spec_u64_at(stk@, 8 + 8 * q) == USER_STACK_TOP + args_off(
                        argseq,
                        q,
                    ),
                forall|q: int|
                    0 <= q < i ==> #[trigger] stk@.subrange(
                        args_off(argseq, q),
                        args_off(argseq, q) + argseq[q].len(),
                    ) == argseq[q],
                forall|q: int| 0 <= q < i ==> stk@[args_off(argseq, q) + argseq[q].len()] == 0u8,
                forall|q: int| 8 + 8 * i <= q < 8 + 8 * (argc as int) + 24 ==> stk@[q] == 0u8,
                forall|q: int| off <= q < 4096 ==> stk@[q] == 0u8,
            decreases argc - i,
        {
            proof {
                lemma_args_off_mono(argseq, i + 1, argc as int);
                lemma_args_off_mono(argseq, 0, i as int);
            }
            let ghost pre = stk@;
            put_u64_page(&mut stk, 8 + 8 * i, USER_STACK_TOP + off as u64);
            let ghost midpage = stk@;
            put_bytes_page(&mut stk, off, &args[i]);
            proof {
                assert(args@[i as int]@ == argseq[i as int]);
                assert(elf::spec_u64_at(stk@, 0) == argc as u64) by {
                    assert(stk@.subrange(0, 8) =~= pre.subrange(0, 8));
                }
                assert forall|q: int|
                    0 <= q < i implies elf::spec_u64_at(stk@, 8 + 8 * q) == USER_STACK_TOP
                    + args_off(argseq, q) by {
                    lemma_args_off_mono(argseq, q + 1, i as int);
                    lemma_args_off_mono(argseq, 0, q as int);
                    assert(stk@.subrange(8 + 8 * q, 8 + 8 * q + 8) =~= pre.subrange(
                        8 + 8 * q,
                        8 + 8 * q + 8,
                    ));
                }
                assert(elf::spec_u64_at(stk@, 8 + 8 * (i as int)) == USER_STACK_TOP + args_off(
                    argseq,
                    i as int,
                )) by {
                    assert(stk@.subrange(8 + 8 * (i as int), 8 + 8 * (i as int) + 8) =~= midpage
                        .subrange(8 + 8 * (i as int), 8 + 8 * (i as int) + 8));
                }
                assert forall|q: int|
                    0 <= q < i implies #[trigger] stk@.subrange(
                    args_off(argseq, q),
                    args_off(argseq, q) + argseq[q].len(),
                ) == argseq[q] by {
                    lemma_args_off_mono(argseq, q + 1, i as int);
                    lemma_args_off_mono(argseq, 0, q as int);
                    assert(stk@.subrange(
                        args_off(argseq, q),
                        args_off(argseq, q) + argseq[q].len(),
                    ) =~= pre.subrange(
                        args_off(argseq, q),
                        args_off(argseq, q) + argseq[q].len(),
                    ));
                }
                assert forall|q: int|
                    0 <= q < i implies stk@[args_off(argseq, q) + argseq[q].len()] == 0u8 by {
                    lemma_args_off_mono(argseq, q + 1, i as int);
                    lemma_args_off_mono(argseq, 0, q as int);
                }
                assert(stk@.subrange(
                    args_off(argseq, i as int),
                    args_off(argseq, i as int) + argseq[i as int].len(),
                ) =~= argseq[i as int]);
            }
            off = off + args[i].len() + 1;
            i = i + 1;
        }

        // map the stack prelude pages, then the info page on top
        let mut g: u64 = 1;
        while g <= 4
            invariant
                1 <= g <= 5,
                blen == binary@.len(),
                blen < 0x1000_0000_0000,
                headers@ == hs,
                hs == spec_headers(binary@),
                elf::elf_layout_ok(binary@),
                loadable(binary@, hs),
                args_fit(argseq),
                argseq == args@.map_values(|v: Vec<u8>| v@),
                argc == argseq.len(),
                argc <= 256,
                self.inv(),
                pmm.wf(),
                pmm.num_frames() == old(pmm).num_frames(),
                self.pid == old(self).pid,
                self.thread == old(self).thread,
                self.files@ == old(self).files@,
                self.next_fd == old(self).next_fd,
                self.cr3_frame == old(self).cr3_frame,
                self.brk == old(self).brk,
                self.brk_initial == old(self).brk_initial,
                *thread == *old(thread),
                thread.wf(),
                forall|gg2: int|
                    old(pmm).frame_in_range(gg2) && old(pmm).frame_used(gg2) ==> pmm.frame_used(
                        gg2,
                    ),
                forall|f2: u64|
                    self.aspace@.owned.contains(f2) ==> pmm.frame_in_range(f2 as int)
                        && pmm.frame_used(f2 as int),
                forall|f2: u64|
                    self.aspace@.owned.contains(f2) && !old(self).aspace@.owned.contains(f2) ==> !old(
                        pmm,
                    ).frame_used(f2 as int),
                forall|ji2: int, k2: int|
                    0 <= ji2 < hs.len() && is_load(#[trigger] hs[ji2]) && 0 <= k2 < seg_page_count(
                        hs[ji2],
                    ) ==> #[trigger] self.aspace@.pages.contains_key(
                        ((seg_first_page(hs[ji2]) + k2)) as u64,
                    ),
                forall|ji2: int, k2: int|
                    0 <= ji2 < hs.len() && is_load(#[trigger] hs[ji2]) && 0 <= k2 < seg_page_count(
                        hs[ji2],
                    ) ==> (#[trigger] self.aspace@.pages[((seg_first_page(hs[ji2]) + k2)) as u64]).bytes
                        == seg_page_bytes(binary@, hs[ji2], k2),
                forall|ji2: int, k2: int|
                    0 <= ji2 < hs.len() && is_load(#[trigger] hs[ji2]) && 0 <= k2 < seg_page_count(
                        hs[ji2],
                    ) ==> (#[trigger] self.aspace@.pages[((seg_first_page(hs[ji2]) + k2)) as u64]).flags
                        == seg_flags(hs[ji2]),
                brk == spec_brk_of(hs),
                brk < USER_STACK_TOP,
                stk@.len() == PAGE_SIZE,
                elf::spec_u64_at(stk@, 0) == argc as u64,
                forall|q: int|
                    0 <= q < argc ==> elf::spec_u64_at(stk@, 8 + 8 * q) == USER_STACK_TOP
                        + args_off(argseq, q),
                forall|q: int|
                    0 <= q < argc ==> #[trigger] stk@.subrange(
                        args_off(argseq, q),
                        args_off(argseq, q) + argseq[q].len(),
                    ) == argseq[q],
                forall|q: int| 0 <= q < argc ==> stk@[args_off(argseq, q) + argseq[q].len()] == 0u8,
                forall|q: int|
                    8 + 8 * (argc as int) <= q < 8 + 8 * (argc as int) + 24 ==> stk@[q] == 0u8,
                forall|kk: u64|
                    stack_info_page() - (g - 1) <= kk < stack_info_page()
                        ==> #[trigger] self.aspace@.pages.contains_key(kk),
                forall|p: u64|
                    self.aspace@.pages.contains_key(p) ==> (in_load_pages(hs, p) || (
                    stack_info_page() - (g - 1) <= p < stack_info_page())),
            decreases 5 - g,
        {
            let page: u64 = USER_STACK_TOP / 4096 - g;
            let ghost pre_owned_g = self.aspace@.owned;
            let ghost pre_pmm_g = *pmm;
            let ghost pre_pages_g = self.aspace@.pages;
            proof {
                if self.aspace@.pages.contains_key(page) {
                    if in_load_pages(hs, page) {
                        let jj = choose|jj: int|
                            0 <= jj < hs.len() && is_load(#[trigger] hs[jj]) && seg_first_page(
                                hs[jj],
                            ) <= page <= seg_last_page(hs[jj]);
                        assert(seg_ok(binary@, hs[jj]));
                        lemma_seg_page_below_stack(hs[jj], page - seg_first_page(hs[jj]));
                        assert(false);
                    }
                    assert(stack_info_page() - (g - 1) <= page);
                    assert(false);
                }
            }
            match self.allocate_user_page(pmm, page, true) {
                Option::None => {
                    proof {
                        assert forall|f: u64| self.aspace@.owned.contains(f) implies
                            pmm.frame_in_range(f as int) && pmm.frame_used(f as int) by {
                            assert(pre_pmm_g.frame_in_range(f as int) && pre_pmm_g.frame_used(
                                f as int,
                            ));
                            assert(pmm@ == pre_pmm_g@);
                        }
                    }
                    return Result::Err(LoadingError::OutOfMemory);
                },
                Option::Some(fr) => {
                    proof {
                        assert forall|f: u64| self.aspace@.owned.contains(f) implies
                            pmm.frame_in_range(f as int) && pmm.frame_used(f as int) by {
                            let j2a = choose|j2a: int|
                                0 <= j2a < self.aspace@.owned.len() && self.aspace@.owned[j2a] == f;
                            if j2a < self.aspace@.owned.len() - 1 {
                                assert(pre_owned_g[j2a] == f);
                                assert(pre_owned_g.contains(f));
                                assert(pre_pmm_g.frame_used(f as int));
                                assert(f != fr);
                                assert(pmm.frame_used(f as int));
                            } else {
                                assert(f == fr);
                            }
                        }
                        assert forall|ji2: int, k2: int|
                            0 <= ji2 < hs.len() && is_load(#[trigger] hs[ji2]) && 0 <= k2
                                < seg_page_count(hs[ji2]) implies ((
                        #[trigger] self.aspace@.pages.contains_key(
                            ((seg_first_page(hs[ji2]) + k2)) as u64,
                        )) && self.aspace@.pages[((seg_first_page(hs[ji2]) + k2)) as u64].bytes
                            == seg_page_bytes(binary@, hs[ji2], k2) && self.aspace@.pages[((
                        seg_first_page(hs[ji2]) + k2)) as u64].flags == seg_flags(hs[ji2])) by {
                            assert(seg_ok(binary@, hs[ji2]));
                            lemma_seg_page_below_stack(hs[ji2], k2);
                            assert(((seg_first_page(hs[ji2]) + k2)) as u64 != page);
                            assert(pre_pages_g.contains_key(((seg_first_page(hs[ji2]) + k2)) as u64));
                            assert(self.aspace@.pages[((seg_first_page(hs[ji2]) + k2)) as u64]
                                == pre_pages_g[((seg_first_page(hs[ji2]) + k2)) as u64]);
                        }
                    }
                },
            }
            g = g + 1;
        }

        // the info page, carrying argc, argv and the strings
        let ghost pre_sp = *pmm;
        let sp_frame = match pmm.allocate_frame() {
            Option::None => {
                proof {
                    assert forall|f: u64| self.aspace@.owned.contains(f) implies
                        pmm.frame_in_range(f as int) && pmm.frame_used(f as int) by {
                        assert(pre_sp.frame_in_range(f as int) && pre_sp.frame_used(f as int));
                        assert(pmm@ == pre_sp@);
                    }
                    assert forall|g: int| pmm.frame_in_range(g) implies pmm.frame_used(g) by {
                        assert(pre_sp.frame_used(g));
                    }
                }
                return Result::Err(LoadingError::OutOfMemory);
            },
            Option::Some(f) => f,
        };
        proof {
            if self.aspace@.owned.contains(sp_frame) {
                assert(pre_sp.frame_used(sp_frame as int));
                assert(!pre_sp.frame_used(sp_frame as int));
                assert(false);
            }
            if self.aspace@.pages.contains_key(stack_info_page()) {
                if in_load_pages(hs, stack_info_page()) {
                    let jj = choose|jj: int|
                        0 <= jj < hs.len() && is_load(#[trigger] hs[jj]) && seg_first_page(hs[jj])
                            <= stack_info_page() <= seg_last_page(hs[jj]);
                    assert(seg_ok(binary@, hs[jj]));
                    lemma_seg_page_below_stack(hs[jj], stack_info_page() - seg_first_page(hs[jj]));
                    assert(false);
                }
                assert(false);
            }
        }
        let ghost pre_owned_seq = self.aspace@.owned;
        let ghost pre_pages = self.aspace@.pages;
        self.aspace.map_user_page(
            USER_STACK_TOP / 4096,
            sp_frame,
            PageFlags { writable: true, user: true, no_execute: true },
            stk,
        );
        proof {
            assert forall|f: u64| self.aspace@.owned.contains(f) implies pmm.frame_in_range(
                f as int,
            ) && pmm.frame_used(f as int) by {
                let j2a = choose|j2a: int|
                    0 <= j2a < self.aspace@.owned.len() && self.aspace@.owned[j2a] == f;
                if j2a < self.aspace@.owned.len() - 1 {
                    assert(pre_owned_seq[j2a] == f);
                    assert(pre_owned_seq.contains(f));
                    assert(pre_sp.frame_in_range(f as int) && pre_sp.frame_used(f as int));
                    assert(f != sp_frame);
                    assert(pmm.frame_used(f as int));
                } else {
                    assert(f == sp_frame);
                    assert(pmm.frame_used(f as int));
                }
            }
        }

        self.brk = brk;
        self.brk_initial = brk;
        thread.context.rbp = crate::elf::entry_point(binary);
        thread.context.rbx = USER_STACK_TOP;
        proof {
            assert(final(self).aspace@.pages.contains_key(stack_info_page()));
            assert(final(self).aspace@.pages[stack_info_page()].bytes == stk@);
            assert forall|p: u64| final(self).aspace@.pages.contains_key(p) implies (is_stack_page(
                p,
            ) || in_load_pages(hs, p)) by {
                if p != stack_info_page() {
                    assert(pre_pages.contains_key(p));
                }
            }
            assert forall|kk: u64|
                stack_info_page() - 4 <= kk < stack_info_page()
                    implies #[trigger] final(self).aspace@.pages.contains_key(kk) by {
                assert(pre_pages.contains_key(kk));
            }
            assert forall|ji2: int, k2: int|
                0 <= ji2 < hs.len() && is_load(#[trigger] hs[ji2]) && 0 <= k2 < seg_page_count(
                    hs[ji2],
                ) implies ((#[trigger] final(self).aspace@.pages.contains_key(
                ((seg_first_page(hs[ji2]) + k2)) as u64,
            )) && final(self).aspace@.pages[((seg_first_page(hs[ji2]) + k2)) as u64].bytes
                == seg_page_bytes(binary@, hs[ji2], k2) && final(self).aspace@.pages[((
            seg_first_page(hs[ji2]) + k2)) as u64].flags == seg_flags(hs[ji2])) by {
                assert(seg_ok(binary@, hs[ji2]));
                lemma_seg_page_below_stack(hs[ji2], k2);
                assert(((seg_first_page(hs[ji2]) + k2)) as u64 != stack_info_page());
                assert(pre_pages.contains_key(((seg_first_page(hs[ji2]) + k2)) as u64));
                assert(final(self).aspace@.pages[((seg_first_page(hs[ji2]) + k2)) as u64]
                    == pre_pages[((seg_first_page(hs[ji2]) + k2)) as u64]);
            }
        }
        Result::Ok(())
    }
}


impl UserProcess {
    /// Forks the process: the user address space is copied page for page
    /// into freshly allocated frames (so a later write by either side is
    /// private), the descriptor table is shared handle for handle, the
    /// break carries over, and the child gets a new thread whose kernel
    /// stack mirrors the parent's six-word trapframe with `entry` (the
    /// forked-child trampoline) on top, so its first dispatch returns to
    /// user space with return value zero. `None` when memory runs out.
    pub fn fork(
        &self,
        pmm: &mut PhysicalMemoryManager,
        parent_thread: &Thread,
        child_pid: u32,
        child_tid: u32,
        entry: u64,
    ) -> (r: Option<(UserProcess, Thread)>)
        requires
            self.inv(),
            old(pmm).wf(),
            parent_thread.wf(),
            forall|f: u64|
                self.aspace@.owned.contains(f) ==> old(pmm).frame_in_range(f as int) && old(
                    pmm,
                ).frame_used(f as int),
        ensures
            final(pmm).wf(),
            final(pmm).num_frames() == old(pmm).num_frames(),
            forall|g: int|
                old(pmm).frame_in_range(g) && old(pmm).frame_used(g) ==> final(pmm).frame_used(g),
            match r {
                Option::None => forall|g: int|
                    final(pmm).frame_in_range(g) ==> final(pmm).frame_used(g),
                Option::Some(pair) => {
                    let child = pair.0;
                    let cthread = pair.1;
                    &&& child.inv()
                    &&& cthread.wf()
                    &&& child.pid == child_pid
                    &&& child.thread == child_tid
                    &&& child.files@ == self.files@
                    &&& child.next_fd == self.next_fd
                    &&& child.brk == self.brk
                    &&& child.brk_initial == self.brk_initial
                    &&& child.aspace@.pages.dom() == self.aspace@.pages.dom()
                    &&& forall|pg: u64|
                        self.aspace@.pages.contains_key(pg) ==> ((
                        #[trigger] child.aspace@.pages[pg]).bytes == self.aspace@.pages[pg].bytes
                            && child.aspace@.pages[pg].flags == self.aspace@.pages[pg].flags)
                    &&& forall|f: u64|
                        child.aspace@.owned.contains(f) ==> (old(pmm).frame_in_range(f as int)
                            && !old(pmm).frame_used(f as int) && final(pmm).frame_used(f as int))
                    &&& forall|g: int|
                        old(pmm).frame_in_range(g) ==> (final(pmm).frame_used(g) <==> (old(
                            pmm,
                        ).frame_used(g) || child.aspace@.owned.contains(g as u64)))
                    &&& cthread.process == Option::Some(child_pid)
                    &&& cthread.tid == child_tid
                    &&& cthread.cr3_frame == Option::Some(child.aspace@.root_frame)
                    &&& forall|q: int|
                        0 <= q < 6 ==> #[trigger] cthread.kstack@[KSTACK_WORDS - 6 + q]
                            == parent_thread.kstack@[KSTACK_WORDS - 6 + q]
                    &&& cthread.kstack@[KSTACK_WORDS - 7] == entry
                    &&& cthread.context.rsp == KSTACK_WORDS - 7
                },
            },
    {
        let child_aspace = match self.aspace.fork_clone(pmm) {
            Option::None => {
                return Option::None;
            },
            Option::Some(a) => a,
        };
        let root = child_aspace.root_frame();
        let mut cthread = Thread::from_func(
            entry,
            Option::Some(child_pid),
            Option::None,
            Option::Some(root),
            child_tid,
        );
        // mirror the parent's trapframe: the top six saved registers
        let mut q: usize = 0;
        while q < 6
            invariant
                0 <= q <= 6,
                parent_thread.wf(),
                cthread.wf(),
                cthread.process == Option::Some(child_pid),
                cthread.tid == child_tid,
                cthread.cr3_frame == Option::Some(root),
                forall|t: int|
                    0 <= t < q ==> #[trigger] cthread.kstack@[KSTACK_WORDS - 6 + t]
                        == parent_thread.kstack@[KSTACK_WORDS - 6 + t],
            decreases 6 - q,
        {
            let v = parent_thread.kstack[KSTACK_WORDS - 6 + q];
            cthread.kstack.set(KSTACK_WORDS - 6 + q, v);
            q = q + 1;
        }
        // the entry below the trapframe so that the first return lands there
        cthread.kstack.set(KSTACK_WORDS - 7, entry);
        cthread.context.rsp = (KSTACK_WORDS - 7) as u64;
        let child = UserProcess {
            files: self.files.clone(),
            next_fd: self.next_fd,
            aspace: child_aspace,
            thread: child_tid,
            pid: child_pid,
            brk: self.brk,
            brk_initial: self.brk_initial,
            cr3_frame: root,
        };
        Option::Some((child, cthread))
    }
}

/// Maps PID to user process. References to processes are by PID.
pub struct ProcessTable {
    processes: BTreeMap<u32, UserProcess>,
}

impl View for ProcessTable {
    type V = Map<u32, UserProcess>;

    closed spec fn view(&self) -> Map<u32, UserProcess> {
        self.processes@
    }
}

impl ProcessTable {
    /// The empty table; made exactly once, at boot.
    pub fn init() -> (r: ProcessTable)
        ensures
            r@ == Map::<u32, UserProcess>::empty(),
    {
        ProcessTable { processes: BTreeMap::new() }
    }

    pub fn contains(&self, pid: u32) -> (r: bool)
        ensures
            r == self@.contains_key(pid),
    {
        self.processes.contains_key(&pid)
    }

    /// Takes the process out of the table for exclusive use; `put_process`
    /// returns it. This stands in for a per-process lock.
    pub fn take_process(&mut self, pid: u32) -> (r: Option<UserProcess>)
        ensures
            match r {
                Option::Some(p) => old(self)@.contains_key(pid) && p == old(self)@[pid]
                    && final(self)@ == old(self)@.remove(pid),
                Option::None => !old(self)@.contains_key(pid) && final(self)@ == old(self)@,
            },
    {
        let r = self.processes.remove(&pid);
        proof {
            if r is None {
                assert(self@ =~= old(self)@);
            }
        }
        r
    }

    /// The descriptor handle fd maps to in process `pid`, when open.
    pub open spec fn spec_fd_of(&self, pid: u32, fd: u32) -> Option<u64> {
        if self@[pid].files@.contains_key(fd) {
            Option::Some(self@[pid].files@[fd])
        } else {
            Option::None
        }
    }

    pub fn fd_of(&self, pid: u32, fd: u32) -> (r: Option<u64>)
        requires
            self@.contains_key(pid),
        ensures
            r == self.spec_fd_of(pid, fd),
    {
        match self.processes.get(&pid) {
            Option::None => {
                proof {
                    assert(false);
                }
                Option::None
            },
            Option::Some(p) => match p.files.get(&fd) {
                Option::None => Option::None,
                Option::Some(h) => Option::Some(*h),
            },
        }
    }

    /// The byte at user address `addr` of process `pid`.
    pub fn read_byte_of(&self, pid: u32, addr: u64) -> (r: Option<u8>)
        requires
            self@.contains_key(pid),
            self@[pid].inv(),
        ensures
            r == self@[pid].aspace@.byte_at(addr),
    {
        match self.processes.get(&pid) {
            Option::None => {
                proof {
                    assert(false);
                }
                Option::None
            },
            Option::Some(p) => p.aspace.read_byte(addr),
        }
    }

    /// The `len` bytes at user address `addr` of process `pid`.
    pub fn read_bytes_of(&self, pid: u32, addr: u64, len: usize) -> (r: Option<Vec<u8>>)
        requires
            self@.contains_key(pid),
            self@[pid].inv(),
            addr + len <= u64::MAX,
        ensures
            match r {
                Option::Some(v) => self@[pid].aspace@.bytes_at(addr, len as nat) == Option::Some(
                    v@,
                ) && v@.len() == len,
                Option::None => self@[pid].aspace@.bytes_at(addr, len as nat) is None,
            },
    {
        match self.processes.get(&pid) {
            Option::None => {
                proof {
                    assert(false);
                }
                Option::None
            },
            Option::Some(p) => p.aspace.read_bytes(addr, len),
        }
    }

    /// Read-only access to a process.
    pub fn get_process(&self, pid: u32) -> (r: Option<&UserProcess>)
        ensures
            match r {
                Option::Some(p) => self@.contains_key(pid) && *p == self@[pid],
                Option::None => !self@.contains_key(pid),
            },
    {
        self.processes.get(&pid)
    }

    /// Used when forking or creating a process to add it to the table.
    pub fn add_process(&mut self, process: UserProcess)
        ensures
            final(self)@ == old(self)@.insert(process.pid, process),
    {
        let pid = process.pid;
        self.processes.insert(pid, process);
    }
}

} // verus!
