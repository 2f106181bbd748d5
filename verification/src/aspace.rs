//! Per-process address space, modelled at page granularity.
//!
//! The machine's four-level page-table tree is owned by the embedder; the
//! model keeps the facts the kernel logic depends on: which user pages are
//! mapped, with what flags, what the backing frame is, the bytes each page
//! holds, and the list of frames the address space owns (so exec, fork and
//! exit can free them without double-free). Kernel mappings (the upper
//! half) are shared by reference across every address space and never
//! appear here.

use vstd::prelude::*;

use crate::pmm::PhysicalMemoryManager;
use crate::vfs::clone_bytes;

verus! {

/// Bytes in one page.
pub const PAGE_SIZE: u64 = 4096;

/// Leaf mapping flags; a mapped page is always present.
#[derive(PartialEq, Eq, Structural, Clone, Copy, Debug)]
pub struct PageFlags {
    pub writable: bool,
    pub user: bool,
    pub no_execute: bool,
}

/// One mapped user page: its backing frame, its flags, and its contents.
pub struct UserPage {
    pub frame: u64,
    pub flags: PageFlags,
    pub bytes: Vec<u8>,
}

/// Ghost image of one mapped page.
pub struct UserPageView {
    pub frame: u64,
    pub flags: PageFlags,
    pub bytes: Seq<u8>,
}

/// Ghost image of an address space.
pub struct AddressSpaceView {
    pub root_frame: u64,
    pub pages: Map<u64, UserPageView>,
    pub owned: Seq<u64>,
}

impl AddressSpaceView {
    /// Every mapped page holds exactly one page of bytes and its backing
    /// frame appears in the owned-frame list; no frame is owned twice, and
    /// no two pages share a backing frame.
    pub open spec fn wf(self) -> bool {
        &&& forall|pg: u64|
            self.pages.contains_key(pg) ==> ((#[trigger] self.pages[pg]).bytes.len() == PAGE_SIZE
                && self.owned.contains(self.pages[pg].frame))
        &&& self.owned.no_duplicates()
        &&& forall|p1: u64, p2: u64|
            self.pages.contains_key(p1) && self.pages.contains_key(p2) && p1 != p2 ==> (
            #[trigger] self.pages[p1]).frame != (#[trigger] self.pages[p2]).frame
    }

    /// The byte at virtual address `addr`, when its page is mapped.
    pub open spec fn byte_at(self, addr: u64) -> Option<u8> {
        let pg = addr / PAGE_SIZE;
        if self.pages.contains_key(pg) {
            Option::Some(self.pages[pg].bytes[(addr % PAGE_SIZE) as int])
        } else {
            Option::None
        }
    }

    /// The `len` bytes from `addr` on, when every page they touch is
    /// mapped.
    pub open spec fn bytes_at(self, addr: u64, len: nat) -> Option<Seq<u8>>
        decreases len,
    {
        if len == 0 {
            Option::Some(Seq::empty())
        } else {
            match (self.byte_at(addr), self.bytes_at((addr + 1) as u64, (len - 1) as nat)) {
                (Option::Some(b), Option::Some(rest)) => Option::Some(seq![b] + rest),
                _ => Option::None,
            }
        }
    }
}

/// The list-to-map image of the page table: later entries do not occur
/// (keys are unique by invariant).
pub open spec fn pages_as_map(s: Seq<(u64, UserPage)>) -> Map<u64, UserPageView>
    decreases s.len(),
{
    if s.len() == 0 {
        Map::empty()
    } else {
        pages_as_map(s.drop_last()).insert(
            s.last().0,
            UserPageView {
                frame: s.last().1.frame,
                flags: s.last().1.flags,
                bytes: s.last().1.bytes@,
            },
        )
    }
}

proof fn lemma_pages_as_map_mem(s: Seq<(u64, UserPage)>, i: int)
    requires
        0 <= i < s.len(),
    ensures
        pages_as_map(s).contains_key(s[i].0),
    decreases s.len(),
{
    if i < s.len() - 1 {
        assert(s.drop_last()[i] == s[i]);
        lemma_pages_as_map_mem(s.drop_last(), i);
    }
}

proof fn lemma_pages_as_map_covered(s: Seq<(u64, UserPage)>, pg: u64)
    requires
        pages_as_map(s).contains_key(pg),
    ensures
        exists|i: int| 0 <= i < s.len() && (#[trigger] s[i]).0 == pg,
    decreases s.len(),
{
    if s.len() > 0 {
        if pg == s.last().0 {
            assert(s[s.len() - 1].0 == pg);
        } else {
            lemma_pages_as_map_covered(s.drop_last(), pg);
            let i = choose|i: int|
                0 <= i < s.drop_last().len() && (#[trigger] s.drop_last()[i]).0 == pg;
            assert(s[i] == s.drop_last()[i]);
            assert(s[i].0 == pg);
        }
    }
}

/// At an index whose key is unique in the list, the map holds that entry.
proof fn lemma_pages_as_map_at(s: Seq<(u64, UserPage)>, i: int)
    requires
        0 <= i < s.len(),
        forall|j: int, k: int| 0 <= j < k < s.len() ==> (#[trigger] s[j]).0 != (#[trigger] s[k]).0,
    ensures
        pages_as_map(s).contains_key(s[i].0),
        pages_as_map(s)[s[i].0] == (UserPageView {
            frame: s[i].1.frame,
            flags: s[i].1.flags,
            bytes: s[i].1.bytes@,
        }),
    decreases s.len(),
{
    if i == s.len() - 1 {
    } else {
        assert(s.drop_last()[i] == s[i]);
        lemma_pages_as_map_at(s.drop_last(), i);
        assert(s[i].0 != s.last().0);
    }
}

/// A per-process address space: the top-level page-table frame, the user
/// leaf mappings, and every frame the address space owns.
pub struct AddressSpace {
    root_frame: u64,
    pages: Vec<(u64, UserPage)>,
    owned_frames: Vec<u64>,
}

impl View for AddressSpace {
    type V = AddressSpaceView;

    closed spec fn view(&self) -> AddressSpaceView {
        AddressSpaceView {
            root_frame: self.root_frame,
            pages: pages_as_map(self.pages@),
            owned: self.owned_frames@,
        }
    }
}

impl AddressSpace {
    /// No duplicate page numbers in the backing list.
    pub closed spec fn keys_unique(&self) -> bool {
        forall|j: int, k: int|
            0 <= j < k < self.pages@.len() ==> (#[trigger] self.pages@[j]).0 != (
            #[trigger] self.pages@[k]).0
    }

    pub open spec fn inv(&self) -> bool {
        &&& self@.wf()
        &&& self.keys_unique_pub()
    }

    /// Exposed alias of the representation invariant, opaque to callers.
    pub closed spec fn keys_unique_pub(&self) -> bool {
        self.keys_unique()
    }

    /// A fresh address space on top of the given top-level frame, with no
    /// user mappings and no owned frames.
    pub fn new(root_frame: u64) -> (r: AddressSpace)
        ensures
            r.inv(),
            r@.root_frame == root_frame,
            r@.pages == Map::<u64, UserPageView>::empty(),
            r@.owned == Seq::<u64>::empty(),
    {
        AddressSpace { root_frame, pages: Vec::new(), owned_frames: Vec::new() }
    }

    pub fn root_frame(&self) -> (r: u64)
        ensures
            r == self@.root_frame,
    {
        self.root_frame
    }

    /// Index of `page` in the backing list, tied to the map view.
    fn find_page(&self, page: u64) -> (r: Option<usize>)
        requires
            self.inv(),
        ensures
            match r {
                Option::Some(i) => i < self.pages_len_spec() && self@.pages.contains_key(page)
                    && self.page_entry_spec(i as int) == page,
                Option::None => !self@.pages.contains_key(page),
            },
    {
        let mut i: usize = 0;
        while i < self.pages.len()
            invariant
                self.inv(),
                0 <= i <= self.pages@.len(),
                forall|j: int| 0 <= j < i ==> (#[trigger] self.pages@[j]).0 != page,
            decreases self.pages@.len() - i,
        {
            if self.pages[i].0 == page {
                proof {
                    lemma_pages_as_map_mem(self.pages@, i as int);
                }
                return Option::Some(i);
            }
            i = i + 1;
        }
        proof {
            if self@.pages.contains_key(page) {
                lemma_pages_as_map_covered(self.pages@, page);
            }
        }
        Option::None
    }

    /// Ghost access to the backing list's length and keys, for contracts
    /// of the private lookup.
    pub closed spec fn pages_len_spec(&self) -> nat {
        self.pages@.len()
    }

    pub closed spec fn page_entry_spec(&self, i: int) -> u64 {
        self.pages@[i].0
    }

    /// Whether `page` is mapped.
    pub fn is_mapped(&self, page: u64) -> (r: bool)
        requires
            self.inv(),
        ensures
            r == self@.pages.contains_key(page),
    {
        match self.find_page(page) {
            Option::Some(_) => true,
            Option::None => false,
        }
    }

    /// The flags and frame of a mapped page.
    pub fn translate(&self, page: u64) -> (r: Option<(u64, PageFlags)>)
        requires
            self.inv(),
        ensures
            match r {
                Option::Some(p) => self@.pages.contains_key(page) && p.0
                    == self@.pages[page].frame && p.1 == self@.pages[page].flags,
                Option::None => !self@.pages.contains_key(page),
            },
    {
        match self.find_page(page) {
            Option::None => Option::None,
            Option::Some(i) => {
                proof {
                    lemma_pages_as_map_at(self.pages@, i as int);
                }
                Option::Some((self.pages[i].1.frame, self.pages[i].1.flags))
            },
        }
    }

    /// Installs a leaf mapping for `page`: the backing frame, its flags,
    /// and the page's initial contents; the frame joins the owned list.
    /// The machine installs the entry and flushes the TLB for the page.
    pub fn map_user_page(&mut self, page: u64, frame: u64, flags: PageFlags, bytes: Vec<u8>)
        requires
            old(self).inv(),
            !old(self)@.pages.contains_key(page),
            !old(self)@.owned.contains(frame),
            bytes@.len() == PAGE_SIZE,
        ensures
            final(self).inv(),
            final(self)@.root_frame == old(self)@.root_frame,
            final(self)@.pages == old(self)@.pages.insert(
                page,
                UserPageView { frame, flags, bytes: bytes@ },
            ),
            final(self)@.owned == old(self)@.owned.push(frame),
    {
        self.pages.push((page, UserPage { frame, flags, bytes }));
        self.owned_frames.push(frame);
        proof {
            assert(self.pages@.drop_last() =~= old(self).pages@);
            assert forall|j: int, k: int|
                0 <= j < k < self.pages@.len() implies (#[trigger] self.pages@[j]).0 != (
            #[trigger] self.pages@[k]).0 by {
                if k == self.pages@.len() - 1 {
                    if old(self).pages@[j].0 == page {
                        lemma_pages_as_map_mem(old(self).pages@, j);
                    }
                }
            }
            lemma_map_wf_after_insert(old(self)@, page, frame, flags, bytes@);
        }
    }

    /// Removes the mapping of `page` and hands its frame back; the frame
    /// leaves the owned list so the caller can free it without a double
    /// free later. The machine clears the entry and flushes the TLB.
    pub fn unmap_page(&mut self, page: u64) -> (r: Option<u64>)
        requires
            old(self).inv(),
        ensures
            final(self).inv(),
            final(self)@.root_frame == old(self)@.root_frame,
            match r {
                Option::Some(frame) => {
                    &&& old(self)@.pages.contains_key(page)
                    &&& frame == old(self)@.pages[page].frame
                    &&& final(self)@.pages == old(self)@.pages.remove(page)
                    &&& final(self)@.owned.to_multiset() == old(self)@.owned.to_multiset().remove(
                        frame,
                    )
                },
                Option::None => final(self)@ == old(self)@ && !old(self)@.pages.contains_key(page),
            },
    {
        match self.find_page(page) {
            Option::None => Option::None,
            Option::Some(i) => {
                proof {
                    lemma_pages_as_map_at(self.pages@, i as int);
                }
                let entry = self.pages.remove(i);
                let frame = entry.1.frame;
                let ghost removed_pages = self.pages@;
                proof {
                    lemma_pages_as_map_remove(old(self).pages@, i as int);
                }
                // drop the frame from the owned list (first occurrence)
                let mut k: usize = 0;
                let n = self.owned_frames.len();
                let ghost owned0 = self.owned_frames@;
                loop
                    invariant
                        n == self.owned_frames@.len(),
                        0 <= k <= n,
                        self.owned_frames@ == owned0,
                        forall|j: int| 0 <= j < k ==> self.owned_frames@[j] != frame,
                        exists|j: int| 0 <= j < owned0.len() && owned0[j] == frame,
                        self.pages@ == removed_pages,
                    ensures
                        0 <= k < self.owned_frames@.len(),
                        self.owned_frames@[k as int] == frame,
                        self.owned_frames@ == owned0,
                        self.pages@ == removed_pages,
                    decreases n - k,
                {
                    if k >= n {
                        proof {
                            let j = choose|j: int| 0 <= j < owned0.len() && owned0[j] == frame;
                            assert(false);
                        }
                    }
                    if self.owned_frames[k] == frame {
                        break;
                    }
                    k = k + 1;
                }
                self.owned_frames.remove(k);
                proof {
                    owned0.to_multiset_ensures();
                    let w = self@;
                    let v = old(self)@;
                    assert(w.pages =~= v.pages.remove(page));
                    assert forall|pg: u64| w.pages.contains_key(pg) implies ((
                    #[trigger] w.pages[pg]).bytes.len() == PAGE_SIZE && w.owned.contains(
                        w.pages[pg].frame,
                    )) by {
                        assert(v.pages.contains_key(pg) && pg != page);
                        assert(v.pages[pg].frame != frame);
                        let j = choose|j: int|
                            0 <= j < owned0.len() && owned0[j] == v.pages[pg].frame;
                        if j < k {
                            assert(w.owned[j] == v.pages[pg].frame);
                        } else {
                            assert(owned0[k as int] == frame);
                            assert(j != k);
                            assert(w.owned[j - 1] == v.pages[pg].frame);
                        }
                    }
                    assert(w.owned.no_duplicates()) by {
                        assert forall|a: int, b: int|
                            0 <= a < b < w.owned.len() implies w.owned[a] != w.owned[b] by {
                            let a2: int = if a < k { a } else { a + 1 };
                            let b2: int = if b < k { b } else { b + 1 };
                            assert(w.owned[a] == owned0[a2]);
                            assert(w.owned[b] == owned0[b2]);
                        }
                    }
                }
                Option::Some(frame)
            },
        }
    }

    /// Deep copy for fork: every user page of this address space reappears
    /// in the child at the same page number, with the same flags and the
    /// same bytes, but backed by a freshly allocated frame; the child also
    /// owns a fresh top-level table frame. `None` when physical memory
    /// runs out (frames taken until then stay allocated). Exactly the
    /// frames the child owns become newly used in the frame allocator, so
    /// the child's frames are disjoint from every frame list that existed
    /// before the fork.
    pub fn fork_clone(&self, pmm: &mut PhysicalMemoryManager) -> (r: Option<AddressSpace>)
        requires
            self.inv(),
            old(pmm).wf(),
        ensures
            final(pmm).wf(),
            final(pmm).num_frames() == old(pmm).num_frames(),
            forall|g: int|
                old(pmm).frame_in_range(g) && old(pmm).frame_used(g) ==> final(pmm).frame_used(g),
            match r {
                Option::None => forall|g: int|
                    final(pmm).frame_in_range(g) ==> final(pmm).frame_used(g),
                Option::Some(child) => {
                    &&& child.inv()
                    &&& child@.pages.dom() == self@.pages.dom()
                    &&& forall|pg: u64|
                        self@.pages.contains_key(pg) ==> ((#[trigger] child@.pages[pg]).bytes
                            == self@.pages[pg].bytes && child@.pages[pg].flags
                            == self@.pages[pg].flags)
                    &&& forall|f: u64|
                        child@.owned.contains(f) ==> (old(pmm).frame_in_range(f as int) && !old(
                            pmm,
                        ).frame_used(f as int) && final(pmm).frame_used(f as int))
                    &&& child@.owned.contains(child@.root_frame)
                    &&& forall|g: int|
                        old(pmm).frame_in_range(g) ==> (final(pmm).frame_used(g) <==> (old(
                            pmm,
                        ).frame_used(g) || child@.owned.contains(g as u64)))
                },
            },
    {
        let ghost pre_root = *pmm;
        let root = match pmm.allocate_frame() {
            Option::None => {
                proof {
                    assert forall|g: int| pmm.frame_in_range(g) implies pmm.frame_used(g) by {
                        assert(pre_root.frame_used(g));
                    }
                }
                return Option::None;
            },
            Option::Some(f) => f,
        };
        let mut child = AddressSpace::new(root);
        child.owned_frames.push(root);
        proof {
            assert(child@.owned =~= seq![root]);
            assert(child@.owned.contains(root)) by {
                assert(child@.owned[0] == root);
            }
        }
        let n: usize = self.pages.len();
        let mut i: usize = 0;
        while i < n
            invariant
                self.inv(),
                n == self.pages@.len(),
                0 <= i <= n,
                child.inv(),
                child@.root_frame == root,
                child@.owned.contains(root),
                pmm.wf(),
                pmm.num_frames() == old(pmm).num_frames(),
                forall|pg: u64|
                    child@.pages.contains_key(pg) <==> exists|j: int|
                        0 <= j < i && (#[trigger] self.pages@[j]).0 == pg,
                forall|j: int|
                    0 <= j < i ==> {
                        &&& (#[trigger] child@.pages[self.pages@[j].0]).bytes
                            == self.pages@[j].1.bytes@
                        &&& child@.pages[self.pages@[j].0].flags == self.pages@[j].1.flags
                    },
                forall|f: u64|
                    child@.owned.contains(f) ==> (old(pmm).frame_in_range(f as int) && !old(
                        pmm,
                    ).frame_used(f as int) && pmm.frame_used(f as int)),
                forall|g: int|
                    old(pmm).frame_in_range(g) ==> (pmm.frame_used(g) <==> (old(pmm).frame_used(g)
                        || child@.owned.contains(g as u64))),
            decreases n - i,
        {
            let ghost pre_pmm = *pmm;
            let ghost pre_child = child@;
            let frame = match pmm.allocate_frame() {
                Option::None => {
                    proof {
                        assert forall|g: int| pmm.frame_in_range(g) implies pmm.frame_used(g) by {
                            assert(pre_pmm.frame_used(g));
                        }
                    }
                    return Option::None;
                },
                Option::Some(f) => f,
            };
            let page: u64 = self.pages[i].0;
            let flags: PageFlags = self.pages[i].1.flags;
            let bytes = clone_bytes(&self.pages[i].1.bytes);
            proof {
                lemma_pages_as_map_at(self.pages@, i as int);
                assert(self@.pages.contains_key(page));
                assert(bytes@.len() == PAGE_SIZE);
                // the new frame is none of the child's frames so far
                if child@.pages.contains_key(page) {
                    let j = choose|j: int| 0 <= j < i && (#[trigger] self.pages@[j]).0 == page;
                    assert(false);
                }
                if child@.owned.contains(frame) {
                    assert(pre_pmm.frame_used(frame as int));
                    assert(false);
                }
            }
            child.map_user_page(page, frame, flags, bytes);
            proof {
                assert forall|pg: u64| child@.pages.contains_key(pg) implies exists|j: int|
                    0 <= j < i + 1 && (#[trigger] self.pages@[j]).0 == pg by {
                    if pg == page {
                        assert(self.pages@[i as int].0 == pg);
                    } else {
                        assert(pre_child.pages.contains_key(pg));
                        let j = choose|j: int| 0 <= j < i && (#[trigger] self.pages@[j]).0 == pg;
                        assert(0 <= j < i + 1 && self.pages@[j].0 == pg);
                    }
                }
                assert forall|pg: u64|
                    (exists|j: int| 0 <= j < i + 1 && (#[trigger] self.pages@[j]).0 == pg)
                    implies child@.pages.contains_key(pg) by {}
                assert forall|f: u64| child@.owned.contains(f) implies (old(pmm).frame_in_range(
                    f as int,
                ) && !old(pmm).frame_used(f as int) && pmm.frame_used(f as int)) by {
                    let j = choose|j: int| 0 <= j < child@.owned.len() && child@.owned[j] == f;
                    if j < child@.owned.len() - 1 {
                        assert(pre_child.owned[j] == f);
                        assert(pre_child.owned.contains(f));
                        assert(pre_pmm.frame_used(f as int));
                        assert(f != frame);
                    } else {
                        assert(f == frame);
                        assert(crate::pmm::bm_lowest_free(pre_pmm@, frame as int));
                        assert(!pre_pmm.frame_used(frame as int));
                        assert(old(pmm).frame_in_range(frame as int));
                    }
                }
                assert forall|g: int| old(pmm).frame_in_range(g) implies (pmm.frame_used(g) <==> (
                old(pmm).frame_used(g) || child@.owned.contains(g as u64))) by {
                    if child@.owned.contains(g as u64) {
                        let j = choose|j: int|
                            0 <= j < child@.owned.len() && child@.owned[j] == g as u64;
                        if j < child@.owned.len() - 1 {
                            assert(pre_child.owned.contains(g as u64));
                        }
                    }
                    if pmm.frame_used(g) && !old(pmm).frame_used(g) {
                        if g != frame {
                            assert(pre_pmm.frame_used(g) == pmm.frame_used(g));
                            assert(pre_child.owned.contains(g as u64));
                            let j = choose|j: int|
                                0 <= j < pre_child.owned.len() && pre_child.owned[j] == g as u64;
                            assert(child@.owned[j] == g as u64);
                        } else {
                            assert(child@.owned[child@.owned.len() - 1] == frame);
                        }
                    }
                    if !pmm.frame_used(g) && child@.owned.contains(g as u64) {
                        let j = choose|j: int|
                            0 <= j < child@.owned.len() && child@.owned[j] == g as u64;
                        if j < child@.owned.len() - 1 {
                            assert(pre_child.owned.contains(g as u64));
                        }
                        assert(false);
                    }
                }
                assert(child@.owned.contains(root)) by {
                    let j = choose|j: int|
                        0 <= j < pre_child.owned.len() && pre_child.owned[j] == root;
                    assert(child@.owned[j] == root);
                }
            }
            i = i + 1;
        }
        proof {
            assert forall|pg: u64| self@.pages.contains_key(pg) implies child@.pages.contains_key(
                pg,
            ) by {
                lemma_pages_as_map_covered(self.pages@, pg);
            }
            assert forall|pg: u64| child@.pages.contains_key(pg) implies self@.pages.contains_key(
                pg,
            ) by {
                let j = choose|j: int| 0 <= j < n && (#[trigger] self.pages@[j]).0 == pg;
                lemma_pages_as_map_mem(self.pages@, j);
            }
            assert(child@.pages.dom() =~= self@.pages.dom());
            assert forall|pg: u64| self@.pages.contains_key(pg) implies ((
            #[trigger] child@.pages[pg]).bytes == self@.pages[pg].bytes && child@.pages[pg].flags
                == self@.pages[pg].flags) by {
                lemma_pages_as_map_covered(self.pages@, pg);
                let j = choose|j: int| 0 <= j < n && (#[trigger] self.pages@[j]).0 == pg;
                lemma_pages_as_map_at(self.pages@, j);
            }
        }
        Option::Some(child)
    }

    /// Drops every user mapping (the lower half of the top-level table is
    /// cleared). The owned frames are kept: this kernel does not reuse
    /// user frames accumulated by an earlier program image.
    pub fn clear_user(&mut self)
        requires
            old(self).inv(),
        ensures
            final(self).inv(),
            final(self)@.root_frame == old(self)@.root_frame,
            final(self)@.pages == Map::<u64, UserPageView>::empty(),
            final(self)@.owned == old(self)@.owned,
    {
        self.pages = Vec::new();
    }

    /// The byte at `addr`, when mapped.
    pub fn read_byte(&self, addr: u64) -> (r: Option<u8>)
        requires
            self.inv(),
        ensures
            r == self@.byte_at(addr),
    {
        let page = addr / PAGE_SIZE;
        let off = (addr % PAGE_SIZE) as usize;
        match self.find_page(page) {
            Option::None => Option::None,
            Option::Some(i) => {
                proof {
                    lemma_pages_as_map_at(self.pages@, i as int);
                }
                Option::Some(self.pages[i].1.bytes[off])
            },
        }
    }

    /// The `len` bytes from `addr` on, when every page they touch is
    /// mapped.
    pub fn read_bytes(&self, addr: u64, len: usize) -> (r: Option<Vec<u8>>)
        requires
            self.inv(),
            addr + len <= u64::MAX,
        ensures
            match r {
                Option::Some(v) => self@.bytes_at(addr, len as nat) == Option::Some(v@)
                    && v@.len() == len,
                Option::None => self@.bytes_at(addr, len as nat) is None,
            },
    {
        let mut out: Vec<u8> = Vec::new();
        let mut i: usize = 0;
        while i < len
            invariant
                self.inv(),
                addr + len <= u64::MAX,
                0 <= i <= len,
                out@.len() == i,
                forall|j: int| 0 <= j < i ==> self@.byte_at((addr + j) as u64) == Option::Some(
                    out@[j],
                ),
            decreases len - i,
        {
            match self.read_byte(addr + i as u64) {
                Option::None => {
                    proof {
                        lemma_bytes_at_none(self@, addr, len as nat, i as int);
                    }
                    return Option::None;
                },
                Option::Some(b) => {
                    out.push(b);
                },
            }
            i = i + 1;
        }
        proof {
            lemma_bytes_at_all_some(self@, addr, len as nat, out@);
        }
        Option::Some(out)
    }

    /// Writes `data` starting at `addr`: exactly when every page the
    /// bytes touch is mapped, all of them land and the write succeeds; on
    /// failure the bytes up to the first unmapped page have landed.
    /// Mappings, flags, frames and ownership never change.
    pub fn write_bytes(&mut self, addr: u64, data: &Vec<u8>) -> (ok: bool)
        requires
            old(self).inv(),
            addr + data@.len() <= u64::MAX,
        ensures
            final(self).inv(),
            final(self)@.root_frame == old(self)@.root_frame,
            final(self)@.owned == old(self)@.owned,
            final(self)@.pages.dom() == old(self)@.pages.dom(),
            forall|pg: u64|
                old(self)@.pages.contains_key(pg) ==> (#[trigger] final(self)@.pages[pg]).frame
                    == old(self)@.pages[pg].frame && final(self)@.pages[pg].flags == old(
                    self,
                )@.pages[pg].flags,
            ok == (old(self)@.bytes_at(addr, data@.len() as nat) is Some),
            ok ==> final(self)@.bytes_at(addr, data@.len() as nat) == Option::Some(data@),
    {
        let n: usize = data.len();
        let mut i: usize = 0;
        while i < n
            invariant
                self.inv(),
                n == data@.len(),
                addr + n <= u64::MAX,
                0 <= i <= n,
                self@.root_frame == old(self)@.root_frame,
                self@.owned == old(self)@.owned,
                self@.pages.dom() == old(self)@.pages.dom(),
                forall|pg: u64|
                    old(self)@.pages.contains_key(pg) ==> (#[trigger] self@.pages[pg]).frame
                        == old(self)@.pages[pg].frame && self@.pages[pg].flags == old(
                        self,
                    )@.pages[pg].flags,
                forall|q: int|
                    0 <= q < i ==> #[trigger] self@.byte_at((addr + q) as u64) == Option::Some(
                        data@[q],
                    ),
                forall|q: int|
                    i <= q < n ==> #[trigger] self@.byte_at((addr + q) as u64) == old(
                        self,
                    )@.byte_at((addr + q) as u64),
            decreases n - i,
        {
            let ghost pre = self@;
            if !self.write_byte(addr + i as u64, data[i]) {
                proof {
                    lemma_bytes_at_none(old(self)@, addr, n as nat, i as int);
                }
                return false;
            }
            proof {
                let pg = ((addr + i) as u64) / PAGE_SIZE;
                assert forall|q: int|
                    0 <= q < i + 1 implies self@.byte_at((addr + q) as u64) == Option::Some(
                    data@[q],
                ) by {
                    if q < i {
                        assert(pre.byte_at((addr + q) as u64) == Option::Some(data@[q]));
                    }
                }
                assert forall|q: int|
                    i + 1 <= q < n implies #[trigger] self@.byte_at((addr + q) as u64) == old(
                    self,
                )@.byte_at((addr + q) as u64) by {
                    assert(pre.byte_at((addr + q) as u64) == old(self)@.byte_at((addr + q) as u64));
                }
                assert(self@.pages.dom() =~= pre.pages.dom());
            }
            i = i + 1;
        }
        proof {
            lemma_bytes_at_all_some(self@, addr, n as nat, data@);
            assert forall|q: int|
                0 <= q < n implies (#[trigger] old(self)@.byte_at((addr + q) as u64)) is Some by {
                assert(self@.byte_at((addr + q) as u64) is Some);
                assert(self@.pages.contains_key(((addr + q) as u64) / PAGE_SIZE) == old(
                    self,
                )@.pages.contains_key(((addr + q) as u64) / PAGE_SIZE));
            }
            lemma_bytes_at_all_mapped(old(self)@, addr, n as nat);
        }
        true
    }

    /// Writes one byte at `addr`; fails (changing nothing) when the page
    /// is not mapped.
    pub fn write_byte(&mut self, addr: u64, value: u8) -> (ok: bool)
        requires
            old(self).inv(),
        ensures
            final(self).inv(),
            final(self)@.root_frame == old(self)@.root_frame,
            final(self)@.owned == old(self)@.owned,
            ok == old(self)@.pages.contains_key(addr / PAGE_SIZE),
            ok ==> final(self)@.pages == old(self)@.pages.insert(
                addr / PAGE_SIZE,
                UserPageView {
                    frame: old(self)@.pages[addr / PAGE_SIZE].frame,
                    flags: old(self)@.pages[addr / PAGE_SIZE].flags,
                    bytes: old(self)@.pages[addr / PAGE_SIZE].bytes.update(
                        (addr % PAGE_SIZE) as int,
                        value,
                    ),
                },
            ),
            !ok ==> final(self)@ == old(self)@,
    {
        let page = addr / PAGE_SIZE;
        let off = (addr % PAGE_SIZE) as usize;
        match self.find_page(page) {
            Option::None => false,
            Option::Some(i) => {
                proof {
                    lemma_pages_as_map_at(self.pages@, i as int);
                }
                let entry = self.pages.remove(i);
                let mut bytes = entry.1.bytes;
                bytes.set(off, value);
                let frame = entry.1.frame;
                let flags = entry.1.flags;
                proof {
                    lemma_pages_as_map_remove(old(self).pages@, i as int);
                }
                self.pages.push((page, UserPage { frame, flags, bytes }));
                proof {
                    assert(self.pages@.drop_last() =~= old(self).pages@.remove(i as int));
                    assert forall|j: int, k: int|
                        0 <= j < k < self.pages@.len() implies (#[trigger] self.pages@[j]).0 != (
                    #[trigger] self.pages@[k]).0 by {
                        if k == self.pages@.len() - 1 {
                            let t = old(self).pages@.remove(i as int);
                            if j < i {
                                assert(t[j] == old(self).pages@[j]);
                            } else {
                                assert(t[j] == old(self).pages@[j + 1]);
                            }
                            assert(t[j].0 != page);
                        }
                    }
                    assert(self@.pages =~= old(self)@.pages.insert(
                        page,
                        UserPageView {
                            frame: old(self)@.pages[page].frame,
                            flags: old(self)@.pages[page].flags,
                            bytes: old(self)@.pages[page].bytes.update(off as int, value),
                        },
                    ));
                    assert(final(self)@.wf()) by {
                        lemma_map_wf_after_update(
                            old(self)@,
                            page,
                            old(self)@.pages[page].bytes.update(off as int, value),
                        );
                    }
                }
                true
            },
        }
    }
}

proof fn lemma_map_wf_after_insert(
    v: AddressSpaceView,
    page: u64,
    frame: u64,
    flags: PageFlags,
    bytes: Seq<u8>,
)
    requires
        v.wf(),
        bytes.len() == PAGE_SIZE,
        !v.owned.contains(frame),
    ensures
        (AddressSpaceView {
            pages: v.pages.insert(page, UserPageView { frame, flags, bytes }),
            owned: v.owned.push(frame),
            ..v
        }).wf(),
{
    let w = AddressSpaceView {
        pages: v.pages.insert(page, UserPageView { frame, flags, bytes }),
        owned: v.owned.push(frame),
        ..v
    };
    assert forall|pg: u64| w.pages.contains_key(pg) implies ((#[trigger] w.pages[pg]).bytes.len()
        == PAGE_SIZE && w.owned.contains(w.pages[pg].frame)) by {
        if pg == page {
            assert(w.owned[w.owned.len() - 1] == frame);
        } else {
            assert(v.pages.contains_key(pg));
            let j = choose|j: int| 0 <= j < v.owned.len() && v.owned[j] == v.pages[pg].frame;
            assert(w.owned[j] == v.pages[pg].frame);
        }
    }
    assert(w.owned.no_duplicates()) by {
        assert forall|j: int, k: int| 0 <= j < k < w.owned.len() implies w.owned[j] != w.owned[k]
            by {
            if k == w.owned.len() - 1 {
                assert(v.owned[j] != frame);
            }
        }
    }
    assert forall|p1: u64, p2: u64|
        w.pages.contains_key(p1) && w.pages.contains_key(p2) && p1 != p2 implies (
    #[trigger] w.pages[p1]).frame != (#[trigger] w.pages[p2]).frame by {
        if p1 == page {
            assert(v.owned.contains(v.pages[p2].frame));
        } else if p2 == page {
            assert(v.owned.contains(v.pages[p1].frame));
        }
    }
}

/// A write to one mapped page keeps the address space well formed: the
/// page keeps its frame, so ownership and frame uniqueness are untouched.
proof fn lemma_map_wf_after_update(v: AddressSpaceView, page: u64, bytes: Seq<u8>)
    requires
        v.wf(),
        v.pages.contains_key(page),
        bytes.len() == PAGE_SIZE,
    ensures
        (AddressSpaceView {
            pages: v.pages.insert(
                page,
                UserPageView { frame: v.pages[page].frame, flags: v.pages[page].flags, bytes },
            ),
            ..v
        }).wf(),
{
    let w = AddressSpaceView {
        pages: v.pages.insert(
            page,
            UserPageView { frame: v.pages[page].frame, flags: v.pages[page].flags, bytes },
        ),
        ..v
    };
    assert forall|pg: u64| w.pages.contains_key(pg) implies ((#[trigger] w.pages[pg]).bytes.len()
        == PAGE_SIZE && w.owned.contains(w.pages[pg].frame)) by {
        assert(v.pages.contains_key(pg));
    }
    assert forall|p1: u64, p2: u64|
        w.pages.contains_key(p1) && w.pages.contains_key(p2) && p1 != p2 implies (
    #[trigger] w.pages[p1]).frame != (#[trigger] w.pages[p2]).frame by {
        assert(v.pages.contains_key(p1) && v.pages.contains_key(p2));
        assert(v.pages[p1].frame != v.pages[p2].frame);
    }
}

proof fn lemma_pages_as_map_remove(s: Seq<(u64, UserPage)>, i: int)
    requires
        0 <= i < s.len(),
        forall|j: int, k: int| 0 <= j < k < s.len() ==> (#[trigger] s[j]).0 != (#[trigger] s[k]).0,
    ensures
        pages_as_map(s.remove(i)) == pages_as_map(s).remove(s[i].0),
        forall|j: int, k: int|
            0 <= j < k < s.remove(i).len() ==> (#[trigger] s.remove(i)[j]).0 != (#[trigger] s.remove(
                i,
            )[k]).0,
    decreases s.len(),
{
    let t = s.remove(i);
    assert forall|pg: u64| #[trigger] pages_as_map(t).contains_key(pg) implies pages_as_map(
        s,
    ).remove(s[i].0).contains_key(pg) by {
        lemma_pages_as_map_covered(t, pg);
        let j = choose|j: int| 0 <= j < t.len() && (#[trigger] t[j]).0 == pg;
        if j < i {
            assert(s[j].0 == pg);
            lemma_pages_as_map_mem(s, j);
        } else {
            assert(s[j + 1].0 == pg);
            lemma_pages_as_map_mem(s, j + 1);
        }
    }
    assert forall|pg: u64| #[trigger] pages_as_map(s).remove(s[i].0).contains_key(pg)
        implies pages_as_map(t).contains_key(pg) by {
        lemma_pages_as_map_covered(s, pg);
        let j = choose|j: int| 0 <= j < s.len() && (#[trigger] s[j]).0 == pg;
        if j < i {
            assert(t[j].0 == pg);
            lemma_pages_as_map_mem(t, j);
        } else {
            assert(t[j - 1].0 == pg);
            lemma_pages_as_map_mem(t, j - 1);
        }
    }
    assert forall|pg: u64| #[trigger] pages_as_map(t).contains_key(pg) implies pages_as_map(t)[pg]
        == pages_as_map(s).remove(s[i].0)[pg] by {
        lemma_pages_as_map_covered(t, pg);
        let j = choose|j: int| 0 <= j < t.len() && (#[trigger] t[j]).0 == pg;
        lemma_pages_as_map_at(t, j);
        if j < i {
            lemma_pages_as_map_at(s, j);
        } else {
            lemma_pages_as_map_at(s, j + 1);
            assert(t[j] == s[j + 1]);
        }
    }
    assert(pages_as_map(t) =~= pages_as_map(s).remove(s[i].0));
}

proof fn lemma_bytes_at_index(v: AddressSpaceView, addr: u64, len: nat, i: int)
    requires
        0 <= i < len,
        addr + len <= u64::MAX,
    ensures
        v.bytes_at(addr, len) matches Option::Some(s) ==> (s.len() == len && v.byte_at(
            (addr + i) as u64,
        ) == Option::Some(s[i])),
    decreases i,
{
    lemma_bytes_at_len(v, addr, len);
    if i > 0 {
        if v.bytes_at(addr, len) is Some {
            lemma_bytes_at_index(v, (addr + 1) as u64, (len - 1) as nat, i - 1);
        }
    }
}

proof fn lemma_bytes_at_len(v: AddressSpaceView, addr: u64, len: nat)
    requires
        addr + len <= u64::MAX,
    ensures
        v.bytes_at(addr, len) matches Option::Some(s) ==> s.len() == len,
    decreases len,
{
    if len > 0 {
        lemma_bytes_at_len(v, (addr + 1) as u64, (len - 1) as nat);
    }
}

proof fn lemma_bytes_at_none(v: AddressSpaceView, addr: u64, len: nat, i: int)
    requires
        0 <= i < len,
        addr + len <= u64::MAX,
        v.byte_at((addr + i) as u64) is None,
    ensures
        v.bytes_at(addr, len) is None,
    decreases i,
{
    if i > 0 {
        lemma_bytes_at_none(v, (addr + 1) as u64, (len - 1) as nat, i - 1);
    }
}

proof fn lemma_bytes_at_all_mapped(v: AddressSpaceView, addr: u64, len: nat)
    requires
        addr + len <= u64::MAX,
        forall|q: int| 0 <= q < len ==> (#[trigger] v.byte_at((addr + q) as u64)) is Some,
    ensures
        v.bytes_at(addr, len) is Some,
    decreases len,
{
    if len > 0 {
        assert(v.byte_at(addr) is Some) by {
            assert(v.byte_at((addr + 0) as u64) is Some);
        }
        assert forall|q: int|
            0 <= q < len - 1 implies (#[trigger] v.byte_at(((addr + 1) as u64 + q) as u64))
            is Some by {
            assert(v.byte_at((addr + (q + 1)) as u64) is Some);
        }
        lemma_bytes_at_all_mapped(v, (addr + 1) as u64, (len - 1) as nat);
    }
}

proof fn lemma_bytes_at_all_some(v: AddressSpaceView, addr: u64, len: nat, out: Seq<u8>)
    requires
        addr + len <= u64::MAX,
        out.len() == len,
        forall|j: int| 0 <= j < len ==> v.byte_at((addr + j) as u64) == Option::Some(#[trigger] out[j]),
    ensures
        v.bytes_at(addr, len) == Option::Some(out),
    decreases len,
{
    if len > 0 {
        assert(v.byte_at(addr) == Option::Some(out[0]));
        lemma_bytes_at_all_some(v, (addr + 1) as u64, (len - 1) as nat, out.drop_first());
        assert(seq![out[0]] + out.drop_first() =~= out);
    }
}

} // verus!
