//! Physical memory as the boot loader maps it out: handing out single
//! frames from the usable regions, and contiguous runs of frames for the
//! devices from the top of the largest one.

use vstd::prelude::*;

verus! {

/// Bytes in a frame.
pub const FRAME_SIZE: u64 = 4096;

/// A stretch of physical memory, from `start` up to but not including
/// `end`, and whether it is free for use.
#[derive(Clone, Copy, Debug, PartialEq, Eq, Structural)]
pub struct MemoryRegion {
    /// The address of the first byte.
    pub start: u64,
    /// The address after the last byte.
    pub end: u64,
    /// Whether the region is free for use.
    pub usable: bool,
}

/// Whether no region of `regions` ends before it starts.
pub open spec fn regions_wf(regions: Seq<MemoryRegion>) -> bool {
    forall|i: int| 0 <= i < regions.len() ==> (#[trigger] regions[i]).start <= regions[i].end
}

/// Whether region `k` is the largest usable one: no usable region is
/// larger, and of several that are as large it is the last.
pub open spec fn is_largest_usable(regions: Seq<MemoryRegion>, k: int) -> bool {
    &&& 0 <= k < regions.len()
    &&& regions[k].usable
    &&& forall|j: int|
        0 <= j < regions.len() && (#[trigger] regions[j]).usable ==> {
            ||| regions[j].end - regions[j].start < regions[k].end - regions[k].start
            ||| (regions[j].end - regions[j].start == regions[k].end - regions[k].start && j <= k)
        }
}

/// The address `addr` rounded down to the start of its frame.
pub open spec fn align_down(addr: int) -> int {
    addr - addr % (FRAME_SIZE as int)
}

/// Finds the largest usable region; `None` when no region is usable.
pub fn largest_usable(regions: &[MemoryRegion]) -> (found: Option<usize>)
    requires
        regions_wf(regions@),
    ensures
        match found {
            Some(k) => is_largest_usable(regions@, k as int),
            None => forall|j: int| 0 <= j < regions@.len() ==> !(#[trigger] regions@[j]).usable,
        },
{
    let mut found: Option<usize> = None;
    let mut i: usize = 0;
    while i < regions.len()
        invariant
            i <= regions@.len(),
            regions_wf(regions@),
            match found {
                Some(k) => is_largest_usable(regions@.take(i as int), k as int),
                None => forall|j: int| 0 <= j < i ==> !(#[trigger] regions@[j]).usable,
            },
        decreases regions@.len() - i,
    {
        let ghost seen = regions@.take(i as int);
        let ghost next = regions@.take(i + 1);
        let region = regions[i];
        let mut better = false;
        if region.usable {
            better = match found {
                Some(k) => region.end - region.start >= regions[k].end - regions[k].start,
                None => true,
            };
        }
        proof {
            assert forall|j: int| 0 <= j < i implies next[j] == seen[j] by {}
            assert(next[i as int] == region);
        }
        if better {
            found = Some(i);
            proof {
                assert forall|j: int| 0 <= j < next.len() && (#[trigger] next[j]).usable implies {
                    ||| next[j].end - next[j].start < region.end - region.start
                    ||| (next[j].end - next[j].start == region.end - region.start && j <= i)
                } by {
                    if j < i {
                        assert(seen[j].usable);
                    }
                }
            }
        } else {
            proof {
                match found {
                    Some(k) => {
                        assert forall|j: int|
                            0 <= j < next.len() && (#[trigger] next[j]).usable implies {
                            ||| next[j].end - next[j].start < next[k as int].end - next[k as int].start
                            ||| (next[j].end - next[j].start == next[k as int].end - next[k as int].start
                                && j <= k)
                        } by {
                            if j < i {
                                assert(seen[j].usable);
                            }
                        }
                    },
                    None => {},
                }
            }
        }
        i += 1;
    }
    assert(regions@.take(i as int) =~= regions@);
    found
}

/// The regions as a sequence, where they are known.
pub open spec fn known_regions(regions: Option<&[MemoryRegion]>) -> Option<Seq<MemoryRegion>> {
    match regions {
        Some(rs) => Some(rs@),
        None => None,
    }
}

/// Whether an allocation starts from `top`: from where the last one ended,
/// or, for the first, from the end of the largest usable region.
pub open spec fn is_allocation_top(
    cursor: Option<u64>,
    regions: Option<Seq<MemoryRegion>>,
    top: u64,
) -> bool {
    match cursor {
        Some(end) => top == end,
        None => regions matches Some(rs) && exists|k: int|
            is_largest_usable(rs, k) && rs[k].end == top,
    }
}

/// Hands out runs of frames for the devices, downwards from the end of the
/// largest usable region, so that they stay clear of the frames handed out
/// one by one from the start.
pub struct DmaAllocator {
    next_end: Option<u64>,
}

impl DmaAllocator {
    /// Where the last run begins, once there is one.
    pub closed spec fn cursor(&self) -> Option<u64> {
        self.next_end
    }

    /// An allocator that has handed out nothing.
    pub fn new() -> (allocator: Self)
        ensures
            allocator.cursor() == None::<u64>,
    {
        DmaAllocator { next_end: None }
    }

    /// Allocates `pages` contiguous frames and returns the address of the
    /// first, which is the start of a frame. The run ends where the last one
    /// begins, or for the first run at the end of the largest usable region.
    /// `None` when the regions are not known or none is usable, and when the
    /// run does not fit below that point.
    pub fn allocate_contiguous_frames(
        &mut self,
        regions: Option<&[MemoryRegion]>,
        pages: usize,
    ) -> (allocated: Option<u64>)
        requires
            regions matches Some(rs) ==> regions_wf(rs@),
        ensures
            match allocated {
                Some(addr) => exists|top: u64|
                    {
                        &&& #[trigger] is_allocation_top(
                            old(self).cursor(),
                            known_regions(regions),
                            top,
                        )
                        &&& pages * FRAME_SIZE <= top
                        &&& addr == align_down(top - pages * FRAME_SIZE)
                        &&& final(self).cursor() == Some(addr)
                    },
                None => final(self).cursor() == old(self).cursor() && forall|top: u64|
                    #[trigger] is_allocation_top(old(self).cursor(), known_regions(regions), top)
                        ==> pages * FRAME_SIZE > top,
            },
    {
        let ghost known = known_regions(regions);
        let ghost mut largest: int = 0;
        let top: u64 = match self.next_end {
            Some(end) => end,
            None => match regions {
                Some(rs) => match largest_usable(rs) {
                    Some(k) => {
                        proof {
                            largest = k as int;
                        }
                        rs[k].end
                    },
                    None => {
                        assert forall|top: u64|
                            !#[trigger] is_allocation_top(self.cursor(), known, top) by {
                            if is_allocation_top(self.cursor(), known, top) {
                                let k = choose|k: int|
                                    is_largest_usable(rs@, k) && rs@[k].end == top;
                                assert(rs@[k].usable);
                            }
                        }
                        return None;
                    },
                },
                None => {
                    return None;
                },
            },
        };
        proof {
            if self.next_end is None {
                let rs = known->0;
                assert(is_largest_usable(rs, largest) && rs[largest].end == top);
            }
            assert(is_allocation_top(self.cursor(), known, top));
            assert forall|other: u64| #[trigger]
                is_allocation_top(self.cursor(), known, other) implies other == top by {
                if self.next_end is None {
                    let rs = known->0;
                    let k1 = choose|k: int| is_largest_usable(rs, k) && rs[k].end == other;
                    let k2 = choose|k: int| is_largest_usable(rs, k) && rs[k].end == top;
                    assert(rs[k1].usable && rs[k2].usable);
                    assert(k1 == k2);
                }
            }
        }
        if pages as u64 > top / FRAME_SIZE {
            assert(pages * FRAME_SIZE > top) by (nonlinear_arith)
                requires
                    pages > top / 4096,
                    FRAME_SIZE == 4096,
            ;
            return None;
        }
        assert(pages * FRAME_SIZE <= top) by (nonlinear_arith)
            requires
                pages <= top / 4096,
                FRAME_SIZE == 4096,
        ;
        let size = pages as u64 * FRAME_SIZE;
        let new_end = top - size;
        let aligned = new_end - new_end % FRAME_SIZE;
        self.next_end = Some(aligned);
        Some(aligned)
    }
}

/// The number of frames that region `r` yields one by one: those that
/// start at `r.start`, `r.start + FRAME_SIZE` and so on before `r.end`.
pub open spec fn frames_in(r: MemoryRegion) -> int {
    if r.usable && r.start < r.end {
        (r.end - r.start - 1) / (FRAME_SIZE as int) + 1
    } else {
        0
    }
}

/// The `n`-th frame, counting from zero, that the usable regions yield in
/// their order; `None` when there are not so many.
pub open spec fn nth_frame(regions: Seq<MemoryRegion>, n: int) -> Option<int>
    decreases regions.len(),
{
    if regions.len() == 0 {
        None
    } else if n < frames_in(regions[0]) {
        Some(align_down(regions[0].start + n * FRAME_SIZE))
    } else {
        nth_frame(regions.drop_first(), n - frames_in(regions[0]))
    }
}

/// Hands out the frames of the usable regions one by one and never takes
/// one back.
pub struct BootInfoFrameAllocator {
    next: usize,
}

impl BootInfoFrameAllocator {
    /// The number of frames handed out, or asked for in vain.
    pub closed spec fn next(&self) -> usize {
        self.next
    }

    /// An allocator that has handed out nothing.
    pub fn init() -> (allocator: Self)
        ensures
            allocator.next() == 0,
    {
        BootInfoFrameAllocator { next: 0 }
    }

    /// The number of frames handed out, or asked for in vain.
    pub fn count(&self) -> (n: usize)
        ensures
            n == self.next(),
    {
        self.next
    }

    /// The start of the `n`-th frame that `regions` yield; `None` when
    /// there are not so many.
    pub fn usable_frame(regions: &[MemoryRegion], n: usize) -> (frame: Option<u64>)
        ensures
            match frame {
                Some(addr) => nth_frame(regions@, n as int) == Some(addr as int),
                None => nth_frame(regions@, n as int) is None,
            },
    {
        let mut left: u64 = n as u64;
        let mut i: usize = 0;
        assert(regions@.skip(0) =~= regions@);
        while i < regions.len()
            invariant
                i <= regions@.len(),
                nth_frame(regions@, n as int) == nth_frame(regions@.skip(i as int), left as int),
            decreases regions@.len() - i,
        {
            let region = regions[i];
            proof {
                let rest = regions@.skip(i as int);
                assert(rest[0] == region);
                assert(rest.drop_first() =~= regions@.skip(i + 1));
            }
            if region.usable && region.start < region.end {
                let count = (region.end - region.start - 1) / FRAME_SIZE + 1;
                if left < count {
                    assert(left * FRAME_SIZE <= region.end - region.start - 1) by (nonlinear_arith)
                        requires
                            left <= (region.end - region.start - 1) / 4096,
                            FRAME_SIZE == 4096,
                            region.start < region.end,
                    ;
                    let addr = region.start + left * FRAME_SIZE;
                    return Some(addr - addr % FRAME_SIZE);
                }
                left = left - count;
            }
            i += 1;
        }
        None
    }

    /// Hands out the next frame, if the regions yield one more.
    pub fn allocate_frame(&mut self, regions: &[MemoryRegion]) -> (frame: Option<u64>)
        requires
            old(self).next() < usize::MAX,
        ensures
            final(self).next() == old(self).next() + 1,
            match frame {
                Some(addr) => nth_frame(regions@, old(self).next() as int) == Some(addr as int),
                None => nth_frame(regions@, old(self).next() as int) is None,
            },
    {
        let frame = Self::usable_frame(regions, self.next);
        self.next += 1;
        frame
    }
}

/// The address `pos` rounded up to a multiple of `align`, for an `align`
/// that is a power of two.
pub open spec fn align_up(pos: usize, align: usize) -> usize {
    ((pos + align - 1) as usize) & !((align - 1) as usize)
}

/// Rounding up gives the first address from `pos` on whose bits below
/// `align` are clear.
pub proof fn lemma_align_up(pos: usize, align: usize)
    requires
        align > 0,
        pos + align - 1 <= usize::MAX,
    ensures
        pos <= align_up(pos, align) < pos + align,
        align_up(pos, align) & ((align - 1) as usize) == 0,
{
    let top = (pos + align - 1) as usize;
    let mask = (align - 1) as usize;
    assert(top & !mask <= top && top - (top & !mask) <= mask && (top & !mask) & mask == 0)
        by (bit_vector);
}

/// Places an allocation of `size` bytes, aligned to `align`, in a heap of
/// `heap_size` bytes of which the first `pos` are taken. It returns where the
/// allocation starts and where it ends; `None` when it does not fit.
pub fn bump(pos: usize, size: usize, align: usize, heap_size: usize) -> (placed: Option<
    (usize, usize),
>)
    requires
        align > 0,
    ensures
        placed == if pos + align - 1 <= usize::MAX && align_up(pos, align) + size <= heap_size {
            Some((align_up(pos, align), (align_up(pos, align) + size) as usize))
        } else {
            None
        },
{
    if pos > usize::MAX - (align - 1) {
        return None;
    }
    let aligned = (pos + (align - 1)) & !(align - 1);
    if aligned > heap_size || size > heap_size - aligned {
        return None;
    }
    Some((aligned, aligned + size))
}

} // verus!
