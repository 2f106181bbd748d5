//! Physical memory manager: a bitmap allocator handing out 4 KiB frames.
//!
//! One bit per frame, `1` = used, `0` = free. Allocation scans 64-bit words
//! from the bottom and picks the lowest clear bit of the first word that is
//! not full, so it always returns the lowest free frame.

use vstd::prelude::*;

verus! {

/// Bytes in one physical frame.
pub const FRAME_SIZE: u64 = 4096;

/// A physical memory region as the boot environment reports it,
/// reduced to plain values: byte addresses `[start, end)` and whether
/// the region is usable RAM.
pub struct MemoryRegion {
    pub start: u64,
    pub end: u64,
    pub usable: bool,
}

/// True when bit `f % 64` of word `f / 64` is set: frame `f` is used.
pub open spec fn bm_used(bm: Seq<u64>, f: int) -> bool {
    (bm[f / 64] >> ((f % 64) as u64)) & 1u64 == 1u64
}

/// The bitmap with frame `f` marked used, all other frames unchanged.
pub open spec fn bm_set(bm: Seq<u64>, f: int) -> Seq<u64> {
    bm.update(f / 64, bm[f / 64] | (1u64 << ((f % 64) as u64)))
}

/// The bitmap with frame `f` marked free, all other frames unchanged.
pub open spec fn bm_clear(bm: Seq<u64>, f: int) -> Seq<u64> {
    bm.update(f / 64, bm[f / 64] & !(1u64 << ((f % 64) as u64)))
}

/// Frame `f` is free and every frame below it is used.
pub open spec fn bm_lowest_free(bm: Seq<u64>, f: int) -> bool {
    &&& 0 <= f < bm.len() * 64
    &&& !bm_used(bm, f)
    &&& forall|g: int| 0 <= g < f ==> bm_used(bm, g)
}

proof fn lemma_or_bit(w: u64, i: u64, j: u64)
    requires
        i < 64,
        j < 64,
    ensures
        ((w | (1u64 << i)) >> i) & 1u64 == 1u64,
        i != j ==> ((w | (1u64 << i)) >> j) & 1u64 == (w >> j) & 1u64,
{
    assert(((w | (1u64 << i)) >> i) & 1u64 == 1u64) by (bit_vector)
        requires i < 64;
    assert(i != j && i < 64 && j < 64 ==> ((w | (1u64 << i)) >> j) & 1u64 == (w >> j) & 1u64)
        by (bit_vector);
}

proof fn lemma_andnot_bit(w: u64, i: u64, j: u64)
    requires
        i < 64,
        j < 64,
    ensures
        ((w & !(1u64 << i)) >> i) & 1u64 == 0u64,
        i != j ==> ((w & !(1u64 << i)) >> j) & 1u64 == (w >> j) & 1u64,
{
    assert(((w & !(1u64 << i)) >> i) & 1u64 == 0u64) by (bit_vector)
        requires i < 64;
    assert(i != j && i < 64 && j < 64 ==> ((w & !(1u64 << i)) >> j) & 1u64 == (w >> j) & 1u64)
        by (bit_vector);
}

/// Marking a frame used and then free again restores the word, and the other
/// way round; the bitmap is idempotent under a deallocate/allocate round trip.
proof fn lemma_set_clear_word(w: u64, i: u64)
    requires
        i < 64,
    ensures
        (w >> i) & 1u64 == 1u64 ==> (w & !(1u64 << i)) | (1u64 << i) == w,
        (w >> i) & 1u64 == 0u64 ==> (w | (1u64 << i)) & !(1u64 << i) == w,
{
    assert((w >> i) & 1u64 == 1u64 && i < 64 ==> (w & !(1u64 << i)) | (1u64 << i) == w)
        by (bit_vector);
    assert((w >> i) & 1u64 == 0u64 && i < 64 ==> (w | (1u64 << i)) & !(1u64 << i) == w)
        by (bit_vector);
}

pub struct PhysicalMemoryManager {
    bitmap: Vec<u64>,
}

/// The mathematical content of the manager is its bitmap, one word of 64
/// frame bits at a time.
impl View for PhysicalMemoryManager {
    type V = Seq<u64>;

    closed spec fn view(&self) -> Seq<u64> {
        self.bitmap@
    }
}

impl PhysicalMemoryManager {
    /// How many frames the bitmap covers.
    pub open spec fn num_frames(self) -> int {
        self@.len() * 64int
    }

    /// True when frame `f` is marked used.
    pub open spec fn frame_used(self, f: int) -> bool {
        bm_used(self@, f)
    }

    pub open spec fn frame_in_range(self, f: int) -> bool {
        0 <= f < self.num_frames()
    }

    /// Every frame number the bitmap covers fits in a `u64`.
    pub open spec fn wf(self) -> bool {
        self.num_frames() <= u64::MAX
    }

    /// Builds the bitmap sized to the highest address in the memory map,
    /// placed (in the machine) in the first usable region large enough to
    /// hold it. Frames of non-usable regions and frames of the chosen
    /// region itself start out used; all other frames start out free.
    /// Returns the manager and the chosen region.
    pub fn new(regions: &Vec<MemoryRegion>) -> (r: (PhysicalMemoryManager, MemoryRegion))
        requires
            regions@.len() > 0,
            forall|j: int| 0 <= j < regions@.len() ==> (#[trigger] regions@[j]).start < regions@[j].end,
            highest_address(regions@) < 0x4000_0000_0000,
            exists|j: int|
                0 <= j < regions@.len() && (#[trigger] regions@[j]).usable && regions@[j].end
                    - regions@[j].start >= bitmap_bytes(highest_address(regions@)),
            forall|j: int|
                0 <= j < regions@.len() ==> (#[trigger] regions@[j]).end <= bitmap_bytes(
                    highest_address(regions@),
                ) / 8 * 64 * 4096,
        ensures
            r.0.wf(),
            r.0.num_frames() == bitmap_bytes(highest_address(regions@)) / 8 * 64,
            r.1.usable,
            r.1.end - r.1.start >= bitmap_bytes(highest_address(regions@)),
            exists|j: int| 0 <= j < regions@.len() && regions@[j] == r.1,
            forall|f: int|
                r.0.frame_in_range(f) ==> (r.0.frame_used(f) <==> initially_used(regions@, r.1, f)),
    {
        let ghost h = highest_address(regions@);
        let mut highest: u64 = 0;
        let mut i: usize = 0;
        while i < regions.len()
            invariant
                0 <= i <= regions@.len(),
                highest == highest_address(regions@.take(i as int)),
            decreases regions@.len() - i,
        {
            proof {
                assert(regions@.take(i + 1).drop_last() =~= regions@.take(i as int));
            }
            if regions[i].end > highest {
                highest = regions[i].end;
            }
            i = i + 1;
        }
        proof {
            assert(regions@.take(regions@.len() as int) =~= regions@);
        }

        // This trick rounds up instead of down.
        let region_size: u64 = (highest + 4096 * 8 - 1) / (4096 * 8);
        proof {
            assert(region_size / 8 < 0x4000_0000) by (nonlinear_arith)
                requires region_size == (highest + 4096 * 8 - 1) / (4096int * 8), highest < 0x4000_0000_0000;
        }
        let words: usize = (region_size / 8) as usize;

        let mut bi: usize = 0;
        loop
            invariant
                0 <= bi <= regions@.len(),
                h == highest_address(regions@),
                region_size == bitmap_bytes(h),
                forall|j: int|
                    0 <= j < regions@.len() ==> (#[trigger] regions@[j]).start < regions@[j].end,
                forall|j: int|
                    0 <= j < bi ==> !((#[trigger] regions@[j]).usable && regions@[j].end
                        - regions@[j].start >= region_size),
                exists|j: int|
                    0 <= j < regions@.len() && (#[trigger] regions@[j]).usable && regions@[j].end
                        - regions@[j].start >= region_size,
            ensures
                0 <= bi < regions@.len(),
                regions@[bi as int].usable,
                regions@[bi as int].end - regions@[bi as int].start >= region_size,
            decreases regions@.len() - bi,
        {
            if bi >= regions.len() {
                proof {
                    let j = choose|j: int|
                        0 <= j < regions@.len() && (#[trigger] regions@[j]).usable && regions@[j].end
                            - regions@[j].start >= region_size;
                    assert(false);
                }
            }
            if regions[bi].usable && regions[bi].end - regions[bi].start >= region_size {
                break;
            }
            bi = bi + 1;
        }
        let bitmap_region = MemoryRegion {
            start: regions[bi].start,
            end: regions[bi].end,
            usable: regions[bi].usable,
        };

        let mut bitmap: Vec<u64> = Vec::new();
        let mut w: usize = 0;
        while w < words
            invariant
                bitmap@.len() == w,
                0 <= w <= words,
                forall|j: int| 0 <= j < w ==> bitmap@[j] == 0u64,
            decreases words - w,
        {
            bitmap.push(0u64);
            w = w + 1;
        }
        let mut pmm = PhysicalMemoryManager { bitmap };
        proof {
            assert forall|f: int| pmm.frame_in_range(f) implies !pmm.frame_used(f) by {
                let j: u64 = (f % 64) as u64;
                assert((0u64 >> j) & 1u64 == 0u64) by (bit_vector);
            }
            assert(pmm.num_frames() == region_size / 8 * 64) by (nonlinear_arith)
                requires
                    pmm@.len() == words,
                    pmm.num_frames() == pmm@.len() * 64,
                    words == region_size / 8;
            assert(pmm.wf());
        }

        pmm.mark_region(&bitmap_region);
        proof {
            assert forall|f: int|
                pmm.frame_in_range(f) implies (pmm.frame_used(f) <==> region_holds_frame(
                bitmap_region,
                f,
            )) by {}
        }

        let mut ri: usize = 0;
        while ri < regions.len()
            invariant
                0 <= ri <= regions@.len(),
                pmm.wf(),
                pmm.num_frames() == bitmap_bytes(h) / 8 * 64,
                region_size == bitmap_bytes(h),
                forall|j: int| 0 <= j < regions@.len() ==> (#[trigger] regions@[j]).start < regions@[j].end,
                forall|j: int|
                    0 <= j < regions@.len() ==> (#[trigger] regions@[j]).end <= bitmap_bytes(h) / 8
                        * 64 * 4096,
                bitmap_region.start < bitmap_region.end,
                bitmap_region.end <= bitmap_bytes(h) / 8 * 64 * 4096,
                forall|f: int|
                    pmm.frame_in_range(f) ==> (pmm.frame_used(f) <==> region_holds_frame(
                        bitmap_region,
                        f,
                    ) || exists|j: int|
                        0 <= j < ri && !regions@[j].usable && region_holds_frame(
                            #[trigger] regions@[j],
                            f,
                        )),
            decreases regions@.len() - ri,
        {
            let ghost prev = pmm;
            if !regions[ri].usable {
                let reg = MemoryRegion {
                    start: regions[ri].start,
                    end: regions[ri].end,
                    usable: regions[ri].usable,
                };
                proof {
                    assert(reg == regions@[ri as int]);
                }
                pmm.mark_region(&reg);
            }
            proof {
                assert forall|f: int| pmm.frame_in_range(f) implies (pmm.frame_used(f)
                    <==> region_holds_frame(bitmap_region, f) || exists|j: int|
                    0 <= j < ri + 1 && !regions@[j].usable && region_holds_frame(
                        #[trigger] regions@[j],
                        f,
                    )) by {
                    assert(prev.frame_in_range(f));
                    if regions@[ri as int].usable {
                        assert(pmm == prev);
                    } else {
                        assert(pmm.frame_used(f) <==> prev.frame_used(f) || region_holds_frame(
                            regions@[ri as int],
                            f,
                        ));
                    }
                    if pmm.frame_used(f) {
                        if !prev.frame_used(f) {
                            assert(!regions@[ri as int].usable && region_holds_frame(
                                regions@[ri as int],
                                f,
                            ));
                        } else {
                            if !region_holds_frame(bitmap_region, f) {
                                let j = choose|j: int|
                                    0 <= j < ri && !regions@[j].usable && region_holds_frame(
                                        #[trigger] regions@[j],
                                        f,
                                    );
                                assert(0 <= j < ri + 1 && !regions@[j].usable && region_holds_frame(
                                    regions@[j],
                                    f,
                                ));
                            }
                        }
                    } else {
                        assert(!prev.frame_used(f));
                        assert(!region_holds_frame(bitmap_region, f));
                        assert forall|j: int|
                            0 <= j < ri + 1 && !regions@[j].usable implies !region_holds_frame(
                            #[trigger] regions@[j],
                            f,
                        ) by {
                        }
                    }
                }
            }
            ri = ri + 1;
        }
        (pmm, bitmap_region)
    }

    /// Marks every frame of `region` used; no frame outside it changes.
    fn mark_region(&mut self, region: &MemoryRegion)
        requires
            old(self).wf(),
            region.start < region.end,
            region.end <= old(self).num_frames() * 4096,
        ensures
            final(self).wf(),
            final(self).num_frames() == old(self).num_frames(),
            forall|f: int| #![trigger final(self).frame_used(f)]
                old(self).frame_in_range(f) ==> (final(self).frame_used(f) <==> old(
                    self,
                ).frame_used(f) || region_holds_frame(*region, f)),
    {
        proof {
            let nf = old(self).num_frames();
            assert((region.end - 1) as int / 4096 < nf) by (nonlinear_arith)
                requires
                    region.end <= nf * 4096,
                    region.start < region.end;
        }
        let first: u64 = region.start / 4096;
        let last: u64 = (region.end - 1) / 4096;
        let mut f: u64 = first;
        while f <= last
            invariant
                first <= f <= last + 1,
                last < self.num_frames(),
                self.wf(),
                self.num_frames() == old(self).num_frames(),
                first == region.start as int / 4096,
                last == (region.end - 1) as int / 4096,
                forall|g: int|
                    old(self).frame_in_range(g) ==> (self.frame_used(g) <==> old(self).frame_used(g)
                        || first <= g < f),
            decreases last + 1 - f,
        {
            self.set_frame(f);
            f = f + 1;
        }
    }

    /// Marks frame `frame` used; no other frame changes.
    pub fn set_frame(&mut self, frame: u64)
        requires
            old(self).frame_in_range(frame as int),
        ensures
            final(self)@ == bm_set(old(self)@, frame as int),
            final(self).num_frames() == old(self).num_frames(),
            final(self).frame_used(frame as int),
            forall|g: int|
                old(self).frame_in_range(g) && g != frame ==> final(self).frame_used(g) == old(
                    self,
                ).frame_used(g),
    {
        let n: usize = self.bitmap.len();
        proof {
            assert(frame as int / 64 < self.bitmap@.len()) by (nonlinear_arith)
                requires (frame as int) < self.bitmap@.len() * 64;
        }
        let idx: usize = (frame / 64) as usize;
        let bit: u64 = frame % 64;
        let w: u64 = self.bitmap[idx];
        self.bitmap.set(idx, w | (1u64 << bit));
        proof {
            assert forall|g: int| 0 <= g < self.num_frames() implies {
                &&& g == frame ==> bm_used(self.bitmap@, g)
                &&& g != frame ==> bm_used(self.bitmap@, g) == bm_used(old(self)@, g)
            } by {
                vstd::arithmetic::div_mod::lemma_fundamental_div_mod(g, 64);
                vstd::arithmetic::div_mod::lemma_fundamental_div_mod(frame as int, 64);
                if g / 64 == idx {
                    lemma_or_bit(w, bit, (g % 64) as u64);
                }
            }
            lemma_or_bit(w, bit, 0);
            assert(self.bitmap@[frame as int / 64] == (w | (1u64 << bit)));
            assert(bm_used(self.bitmap@, frame as int));
        }
    }

    /// Marks frame `frame` free; no other frame changes.
    pub fn clear_frame(&mut self, frame: u64)
        requires
            old(self).frame_in_range(frame as int),
        ensures
            final(self)@ == bm_clear(old(self)@, frame as int),
            final(self).num_frames() == old(self).num_frames(),
            !final(self).frame_used(frame as int),
            forall|g: int|
                old(self).frame_in_range(g) && g != frame ==> final(self).frame_used(g) == old(
                    self,
                ).frame_used(g),
    {
        let n: usize = self.bitmap.len();
        proof {
            assert(frame as int / 64 < self.bitmap@.len()) by (nonlinear_arith)
                requires (frame as int) < self.bitmap@.len() * 64;
        }
        let idx: usize = (frame / 64) as usize;
        let bit: u64 = frame % 64;
        let w: u64 = self.bitmap[idx];
        self.bitmap.set(idx, w & !(1u64 << bit));
        proof {
            assert forall|g: int| 0 <= g < self.num_frames() implies {
                &&& g == frame ==> !bm_used(self.bitmap@, g)
                &&& g != frame ==> bm_used(self.bitmap@, g) == bm_used(old(self)@, g)
            } by {
                vstd::arithmetic::div_mod::lemma_fundamental_div_mod(g, 64);
                vstd::arithmetic::div_mod::lemma_fundamental_div_mod(frame as int, 64);
                if g / 64 == idx {
                    lemma_andnot_bit(w, bit, (g % 64) as u64);
                }
            }
            lemma_andnot_bit(w, bit, 0);
            assert(self.bitmap@[frame as int / 64] == (w & !(1u64 << bit)));
            assert(!bm_used(self.bitmap@, frame as int));
        }
    }

    /// Returns the lowest free frame, marking it used, or `None` when the
    /// bitmap is full. No guarantee of zeroing.
    pub fn allocate_frame(&mut self) -> (r: Option<u64>)
        requires
            old(self).wf(),
        ensures
            final(self).num_frames() == old(self).num_frames(),
            match r {
                Some(f) => {
                    &&& bm_lowest_free(old(self)@, f as int)
                    &&& final(self)@ == bm_set(old(self)@, f as int)
                    &&& final(self).frame_used(f as int)
                    &&& forall|g: int|
                        old(self).frame_in_range(g) && g != f ==> final(self).frame_used(g) == old(
                            self,
                        ).frame_used(g)
                },
                None => final(self)@ == old(self)@ && forall|g: int|
                    old(self).frame_in_range(g) ==> old(self).frame_used(g),
            },
    {
        let n: usize = self.bitmap.len();
        let mut idx: usize = 0;
        while idx < n
            invariant
                n == self.bitmap@.len(),
                0 <= idx <= n,
                self == old(self),
                self.wf(),
                forall|g: int| 0 <= g < idx * 64 ==> bm_used(self.bitmap@, g),
            decreases n - idx,
        {
            let entry: u64 = self.bitmap[idx];
            if entry != u64::MAX {
                let bit: u64 = entry.trailing_ones() as u64;
                proof {
                    vstd::std_specs::bits::axiom_u64_trailing_ones(entry);
                    assert(!(entry == 0xffff_ffff_ffff_ffffu64));
                }
                proof {
                    assert(idx * 64 + bit <= self.bitmap@.len() * 64) by (nonlinear_arith)
                        requires 0 <= idx < self.bitmap@.len(), 0 <= bit < 64;
                }
                let frame: u64 = (idx as u64) * 64 + bit;
                proof {
                    assert(frame as int / 64 == idx && frame as int % 64 == bit) by (nonlinear_arith)
                        requires frame == idx * 64 + bit, 0 <= bit < 64, 0 <= idx;
                    assert forall|g: int| 0 <= g < frame implies bm_used(self.bitmap@, g) by {
                        if g >= idx * 64 {
                            assert(g / 64 == idx && 0 <= g % 64 < bit) by (nonlinear_arith)
                                requires idx * 64 <= g < idx * 64 + bit, 0 <= bit < 64, 0 <= idx;
                            assert((entry >> ((g % 64) as u64)) & 1u64 == 1u64);
                        }
                    }
                }
                self.set_frame(frame);
                return Some(frame);
            }
            proof {
                assert forall|g: int| idx * 64 <= g < (idx + 1) * 64 implies bm_used(
                    self.bitmap@,
                    g,
                ) by {
                    assert(g / 64 == idx && 0 <= g % 64 < 64) by (nonlinear_arith)
                        requires idx * 64 <= g < (idx + 1) * 64, 0 <= idx;
                    let j: u64 = (g % 64) as u64;
                    assert((0xffff_ffff_ffff_ffffu64 >> j) & 1u64 == 1u64 || j >= 64)
                        by (bit_vector);
                }
            }
            idx = idx + 1;
        }
        None
    }

    /// Marks `frame` free again. The caller asserts that no live mapping
    /// still refers to it.
    pub fn deallocate_frame(&mut self, frame: u64)
        requires
            old(self).frame_in_range(frame as int),
        ensures
            final(self)@ == bm_clear(old(self)@, frame as int),
            final(self).num_frames() == old(self).num_frames(),
            !final(self).frame_used(frame as int),
            forall|g: int|
                old(self).frame_in_range(g) && g != frame ==> final(self).frame_used(g) == old(
                    self,
                ).frame_used(g),
    {
        self.clear_frame(frame);
    }
}


/// The highest `end` address over all regions.
pub open spec fn highest_address(regions: Seq<MemoryRegion>) -> int
    decreases regions.len(),
{
    if regions.len() == 0 {
        0
    } else {
        let rest = highest_address(regions.drop_last());
        if regions.last().end > rest {
            regions.last().end as int
        } else {
            rest
        }
    }
}

/// Bytes the bitmap needs to give one bit to every frame up to `h`,
/// rounded up.
pub open spec fn bitmap_bytes(h: int) -> int {
    (h + 4096 * 8 - 1) / (4096int * 8)
}

/// Frame `f` lies inside region `r` (frame granularity, inclusive of the
/// frame holding the last byte).
pub open spec fn region_holds_frame(r: MemoryRegion, f: int) -> bool {
    r.start / 4096 <= f <= (r.end - 1) / 4096
}

/// Frame `f` must start out marked used: it belongs to a region that is not
/// usable RAM, or to the region chosen to store the bitmap itself.
pub open spec fn initially_used(regions: Seq<MemoryRegion>, bitmap_region: MemoryRegion, f: int) -> bool {
    ||| region_holds_frame(bitmap_region, f)
    ||| exists|j: int|
        0 <= j < regions.len() && !regions[j].usable && region_holds_frame(#[trigger] regions[j], f)
}


/// Law: deallocating a used frame `f` and allocating again yields a frame no
/// higher than `f`, and when it yields `f` itself the bitmap is exactly what
/// it was before the round trip. Together with `allocate_frame`'s contract
/// (the result is the lowest free frame, which `bm_set` then marks used),
/// this is the deallocate/allocate round trip on the bitmap.
pub proof fn lemma_frame_round_trip(bm: Seq<u64>, f: int)
    requires
        0 <= f < bm.len() * 64,
        bm_used(bm, f),
    ensures
        !bm_used(bm_clear(bm, f), f),
        forall|g: int| bm_lowest_free(bm_clear(bm, f), g) ==> g <= f,
        bm_set(bm_clear(bm, f), f) == bm,
{
    let bm1 = bm_clear(bm, f);
    let i: u64 = (f % 64) as u64;
    let w: u64 = bm[f / 64];
    assert forall|g: int| 0 <= g < bm.len() * 64 implies {
        &&& g == f ==> !bm_used(bm1, g)
        &&& g != f ==> bm_used(bm1, g) == bm_used(bm, g)
    } by {
        lemma_andnot_bit(w, i, (g % 64) as u64);
    }
    assert forall|g: int| bm_lowest_free(bm1, g) implies g <= f by {
        if g > f {
            assert(bm_used(bm1, f));
        }
    }
    lemma_set_clear_word(w, i);
    assert(bm_set(bm1, f) =~= bm);
}

} // verus!
