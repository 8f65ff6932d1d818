use vstd::prelude::*;
use crate::addr::PhysPageNum;
use crate::error::MmError;
use crate::memory::PhysMemory;
use crate::pte::PPN_LIMIT;

verus! {

/// Exclusive handle on one allocated physical frame. It is handed back with
/// [`FrameTracker::release`], which zeroes the frame before freeing it.
pub struct FrameTracker(PhysPageNum);

impl FrameTracker {
    pub closed spec fn view(&self) -> u64 {
        self.0.0
    }

    pub fn ppn(&self) -> (r: PhysPageNum)
        ensures
            r.0 == self@,
    {
        self.0
    }

    /// Zeroes the frame, then returns it to `allocator`.
    pub fn release(self, allocator: &mut FrameAllocator, mem: &mut PhysMemory) -> (r: Result<
        (),
        MmError,
    >)
        requires
            old(allocator).wf(),
            old(mem).wf(),
            old(allocator).covered_by(old(mem)),
        ensures
            final(mem).wf(),
            final(mem).base_spec() == old(mem).base_spec(),
            final(mem).frames_spec() == old(mem).frames_spec(),
            final(mem).same_except(old(mem), self@),
            r is Ok ==> final(mem).frame_zero(self@),
            FrameAllocator::dealloc_post(*old(allocator), *final(allocator), self@, r),
    {
        let p = self.0.0;
        if allocator.start <= p && p < allocator.end {
            mem.clear_frame(p);
        }
        allocator.try_dealloc(self.0)
    }
}

/// Hands out the physical frames `[start, end)`: first those that were freed
/// (last freed first), then never-used ones in increasing order.
pub struct FrameAllocator {
    start: u64,
    current: u64,
    end: u64,
    recycled: Vec<u64>,
}

impl FrameAllocator {
    pub closed spec fn start_spec(&self) -> u64 {
        self.start
    }

    pub closed spec fn current_spec(&self) -> u64 {
        self.current
    }

    pub closed spec fn end_spec(&self) -> u64 {
        self.end
    }

    /// The freed frames, oldest first.
    pub closed spec fn recycled_spec(&self) -> Seq<u64> {
        self.recycled@
    }

    pub open spec fn wf(&self) -> bool {
        &&& self.start_spec() <= self.current_spec() <= self.end_spec()
        &&& self.end_spec() <= PPN_LIMIT
        &&& self.recycled_spec().no_duplicates()
        &&& forall|i: int|
            0 <= i < self.recycled_spec().len() ==> self.start_spec()
                <= #[trigger] self.recycled_spec()[i] < self.current_spec()
    }

    /// Whether frame `p` is handed out at present.
    pub open spec fn allocated(&self, p: u64) -> bool {
        self.start_spec() <= p < self.current_spec() && !self.recycled_spec().contains(p)
    }

    /// The number of frames handed out at present.
    pub open spec fn live_count(&self) -> int {
        (self.current_spec() - self.start_spec()) - self.recycled_spec().len()
    }

    /// The number of frames this allocator manages.
    pub open spec fn capacity(&self) -> int {
        self.end_spec() - self.start_spec()
    }

    /// The number of frames that can still be handed out.
    pub open spec fn available(&self) -> int {
        self.recycled_spec().len() + (self.end_spec() - self.current_spec())
    }

    /// Whether `mem` holds every frame of this allocator.
    pub open spec fn covered_by(&self, mem: &PhysMemory) -> bool {
        mem.base_spec() <= self.start_spec() && self.end_spec() <= mem.base_spec()
            + mem.frames_spec()
    }

    /// What `allocate` does, from `a` to `b`, returning `r`.
    pub open spec fn alloc_post(a: FrameAllocator, b: FrameAllocator, r: Option<u64>) -> bool {
        &&& b.start_spec() == a.start_spec()
        &&& b.end_spec() == a.end_spec()
        &&& if a.recycled_spec().len() > 0 {
            &&& r == Some(a.recycled_spec().last())
            &&& b.recycled_spec() == a.recycled_spec().drop_last()
            &&& b.current_spec() == a.current_spec()
        } else if a.current_spec() < a.end_spec() {
            &&& r == Some(a.current_spec())
            &&& b.recycled_spec() == a.recycled_spec()
            &&& b.current_spec() == a.current_spec() + 1
        } else {
            &&& r is None
            &&& b == a
        }
    }

    /// What `dealloc` of frame `p` does, from `a` to `b`, returning `r`.
    pub open spec fn dealloc_post(
        a: FrameAllocator,
        b: FrameAllocator,
        p: u64,
        r: Result<(), MmError>,
    ) -> bool {
        &&& b.start_spec() == a.start_spec()
        &&& b.end_spec() == a.end_spec()
        &&& if p < a.start_spec() || p >= a.current_spec() {
            r == Err::<(), MmError>(MmError::InvalidFree) && b == a
        } else if a.recycled_spec().contains(p) {
            r == Err::<(), MmError>(MmError::DoubleFree) && b == a
        } else {
            &&& r is Ok
            &&& b.current_spec() == a.current_spec()
            &&& b.recycled_spec() == a.recycled_spec().push(p)
        }
    }

    /// An allocator over the frames `[start, end)`, all of which are zeroed.
    pub fn new(start: PhysPageNum, end: PhysPageNum, mem: &mut PhysMemory) -> (r: FrameAllocator)
        requires
            start.0 <= end.0,
            old(mem).wf(),
            old(mem).base_spec() <= start.0,
            end.0 <= old(mem).base_spec() + old(mem).frames_spec(),
        ensures
            r.wf(),
            r.start_spec() == start.0,
            r.current_spec() == start.0,
            r.end_spec() == end.0,
            r.recycled_spec().len() == 0,
            r.covered_by(final(mem)),
            final(mem).wf(),
            final(mem).base_spec() == old(mem).base_spec(),
            final(mem).frames_spec() == old(mem).frames_spec(),
            forall|p: u64| start.0 <= p < end.0 ==> final(mem).frame_zero(p),
            forall|q: u64, i: int|
                !(start.0 <= q < end.0) && final(mem).holds(q) && 0 <= i < 512
                    ==> #[trigger] final(mem).entry(q, i) == old(mem).entry(q, i),
    {
        let mut p = start.0;
        while p < end.0
            invariant
                start.0 <= p <= end.0,
                old(mem).base_spec() <= start.0,
                end.0 <= old(mem).base_spec() + old(mem).frames_spec(),
                mem.wf(),
                mem.base_spec() == old(mem).base_spec(),
                mem.frames_spec() == old(mem).frames_spec(),
                forall|q: u64| start.0 <= q < p ==> mem.frame_zero(q),
                forall|q: u64, i: int|
                    !(start.0 <= q < p) && mem.holds(q) && 0 <= i < 512 ==> #[trigger] mem.entry(q, i)
                        == old(mem).entry(q, i),
            decreases end.0 - p,
        {
            let ghost before = *mem;
            mem.clear_frame(p);
            assert forall|q: u64, i: int|
                !(start.0 <= q < p + 1) && mem.holds(q) && 0 <= i < 512 implies #[trigger] mem.entry(q, i)
                == old(mem).entry(q, i) by {
                assert(before.entry(q, i) == old(mem).entry(q, i));
            }
            assert forall|q: u64| start.0 <= q < p + 1 implies mem.frame_zero(q) by {
                if q != p {
                    assert forall|i: int| 0 <= i < 512 implies #[trigger] mem.entry(q, i) == 0 by {
                        assert(before.frame_zero(q));
                        assert(before.entry(q, i) == 0);
                    }
                }
            }
            p = p + 1;
        }
        proof {
            mem.lemma_bounded();
        }
        FrameAllocator { start: start.0, current: start.0, end: end.0, recycled: Vec::new() }
    }

    /// Hands out a free frame, preferring the most recently freed one; `None`
    /// when every frame is in use.
    pub fn allocate(&mut self) -> (r: Option<FrameTracker>)
        requires
            old(self).wf(),
        ensures
            final(self).wf(),
            FrameAllocator::alloc_post(
                *old(self),
                *final(self),
                match r {
                    Some(t) => Some(t@),
                    None => None,
                },
            ),
    {
        if self.recycled.len() > 0 {
            let p = self.recycled.pop().unwrap();
            proof {
                assert(self.recycled@ =~= old(self).recycled@.drop_last());
                assert forall|i: int|
                    0 <= i < self.recycled@.len() implies self.start <= #[trigger] self.recycled@[i]
                    < self.current by {
                    assert(self.recycled@[i] == old(self).recycled@[i]);
                }
            }
            Some(FrameTracker(PhysPageNum(p)))
        } else if self.current < self.end {
            self.current = self.current + 1;
            Some(FrameTracker(PhysPageNum(self.current - 1)))
        } else {
            None
        }
    }

    /// The number of frames that can still be handed out.
    pub fn available_frames(&self) -> (r: u64)
        requires
            self.wf(),
        ensures
            r == self.available(),
    {
        proof {
            lemma_live_within_capacity(*self);
        }
        self.recycled.len() as u64 + (self.end - self.current)
    }

    /// Whether frame `p` is on the free list.
    fn is_recycled(&self, p: u64) -> (r: bool)
        ensures
            r == self.recycled@.contains(p),
    {
        let mut i: usize = 0;
        while i < self.recycled.len()
            invariant
                i <= self.recycled@.len(),
                forall|j: int| 0 <= j < i ==> self.recycled@[j] != p,
            decreases self.recycled@.len() - i,
        {
            if self.recycled[i] == p {
                return true;
            }
            i = i + 1;
        }
        false
    }

    /// Puts frame `ppn`, which must be handed out at present, back on the free
    /// list.
    pub fn dealloc(&mut self, ppn: PhysPageNum)
        requires
            old(self).wf(),
            old(self).allocated(ppn.0),
        ensures
            final(self).wf(),
            FrameAllocator::dealloc_post(*old(self), *final(self), ppn.0, Ok(())),
            final(self).recycled_spec() == old(self).recycled_spec().push(ppn.0),
            final(self).current_spec() == old(self).current_spec(),
    {
        let r = self.try_dealloc(ppn);
        assert(r is Ok);
    }

    /// Puts frame `ppn` back on the free list. Fails with `InvalidFree` when it
    /// was never handed out and with `DoubleFree` when it is already free.
    pub fn try_dealloc(&mut self, ppn: PhysPageNum) -> (r: Result<(), MmError>)
        requires
            old(self).wf(),
        ensures
            final(self).wf(),
            FrameAllocator::dealloc_post(*old(self), *final(self), ppn.0, r),
    {
        let p = ppn.0;
        if p < self.start || p >= self.current {
            return Err(MmError::InvalidFree);
        }
        if self.is_recycled(p) {
            return Err(MmError::DoubleFree);
        }
        self.recycled.push(p);
        proof {
            assert forall|i: int, j: int|
                0 <= i < self.recycled@.len() && 0 <= j < self.recycled@.len() && i != j implies
                self.recycled@[i] != self.recycled@[j] by {
                if i < old(self).recycled@.len() && j < old(self).recycled@.len() {
                    assert(old(self).recycled@.no_duplicates());
                } else if i < old(self).recycled@.len() {
                    assert(old(self).recycled@.contains(old(self).recycled@[i]));
                } else {
                    assert(old(self).recycled@.contains(old(self).recycled@[j]));
                }
            }
            assert forall|i: int|
                0 <= i < self.recycled@.len() implies self.start <= #[trigger] self.recycled@[i]
                < self.current by {
                if i < old(self).recycled@.len() {
                    assert(self.recycled@[i] == old(self).recycled@[i]);
                }
            }
        }
        Ok(())
    }
}

proof fn lemma_distinct_in_range(s: Seq<u64>, lo: int, hi: int)
    requires
        s.no_duplicates(),
        forall|i: int| 0 <= i < s.len() ==> lo <= #[trigger] s[i] < hi,
    ensures
        s.len() <= if hi - lo > 0 { hi - lo } else { 0 },
    decreases hi - lo,
{
    if s.len() > 0 {
        assert(lo <= s[0] < hi);
        if exists|k: int| 0 <= k < s.len() && s[k] == hi - 1 {
            let k = choose|k: int| 0 <= k < s.len() && s[k] == hi - 1;
            let t = Seq::new((s.len() - 1) as nat, |i: int| if i < k { s[i] } else { s[i + 1] });
            assert forall|i: int| 0 <= i < t.len() implies lo <= #[trigger] t[i] < hi - 1 by {
                let j = if i < k { i } else { i + 1 };
                assert(t[i] == s[j]);
                assert(j != k);
            }
            assert forall|i: int, j: int| 0 <= i < t.len() && 0 <= j < t.len() && i != j implies t[i]
                != t[j] by {
                let a = if i < k { i } else { i + 1 };
                let b = if j < k { j } else { j + 1 };
                assert(t[i] == s[a] && t[j] == s[b]);
            }
            lemma_distinct_in_range(t, lo, hi - 1);
        } else {
            assert forall|i: int| 0 <= i < s.len() implies lo <= #[trigger] s[i] < hi - 1 by {
                assert(s[i] != hi - 1);
            }
            lemma_distinct_in_range(s, lo, hi - 1);
        }
    }
}

/// However allocations and frees interleave, the frames handed out at one
/// time never outnumber the frames the allocator manages.
pub proof fn lemma_live_within_capacity(a: FrameAllocator)
    requires
        a.wf(),
    ensures
        0 <= a.live_count() <= a.capacity(),
{
    lemma_distinct_in_range(a.recycled_spec(), a.start_spec() as int, a.current_spec() as int);
}

/// Freeing a frame that is not handed out at present (never allocated, or
/// already free) is outside what `dealloc` accepts, and `try_dealloc` fails on
/// it and leaves the allocator as it was.
pub proof fn lemma_free_unallocated_fails(
    a: FrameAllocator,
    b: FrameAllocator,
    p: u64,
    r: Result<(), MmError>,
)
    requires
        a.wf(),
        FrameAllocator::dealloc_post(a, b, p, r),
        !a.allocated(p),
    ensures
        r is Err,
        b == a,
{
}

/// A successful allocation hands out a frame that was not in use, and from
/// then on it is in use; every other frame keeps its state.
pub proof fn lemma_allocate_fresh(a: FrameAllocator, b: FrameAllocator, r: Option<u64>)
    requires
        a.wf(),
        FrameAllocator::alloc_post(a, b, r),
    ensures
        r matches Some(p) ==> !a.allocated(p) && b.allocated(p) && b.live_count() == a.live_count() + 1,
        forall|q: u64| r != Some(q) ==> (a.allocated(q) <==> b.allocated(q)),
        r is None <==> a.available() == 0,
{
    if a.recycled_spec().len() > 0 {
        let s = a.recycled_spec();
        let l = s.len() - 1;
        assert(s.contains(s[l]));
        assert forall|q: u64| r != Some(q) implies (a.allocated(q) <==> b.allocated(q)) by {
            if s.contains(q) {
                let i = choose|i: int| 0 <= i < s.len() && s[i] == q;
                if i != l {
                    assert(b.recycled_spec()[i] == q);
                }
            }
            if b.recycled_spec().contains(q) {
                let i = choose|i: int| 0 <= i < b.recycled_spec().len() && b.recycled_spec()[i] == q;
                assert(s[i] == q);
            }
        }
        if b.recycled_spec().contains(s[l]) {
            let i = choose|i: int| 0 <= i < b.recycled_spec().len() && b.recycled_spec()[i] == s[l];
            assert(s[i] == s[l]);
        }
    } else {
        if a.current_spec() < a.end_spec() {
            if a.recycled_spec().contains(a.current_spec()) {
                let i = choose|i: int|
                    0 <= i < a.recycled_spec().len() && a.recycled_spec()[i] == a.current_spec();
            }
        }
    }
}

/// Takes a frame from `allocator`, which must have one left, and zeroes it.
pub fn frame_alloc(allocator: &mut FrameAllocator, mem: &mut PhysMemory) -> (r: FrameTracker)
    requires
        old(allocator).wf(),
        old(mem).wf(),
        old(allocator).covered_by(old(mem)),
        old(allocator).available() > 0,
    ensures
        final(allocator).wf(),
        final(mem).wf(),
        final(mem).base_spec() == old(mem).base_spec(),
        final(mem).frames_spec() == old(mem).frames_spec(),
        FrameAllocator::alloc_post(*old(allocator), *final(allocator), Some(r@)),
        final(mem).frame_zero(r@),
        final(mem).same_except(old(mem), r@),
{
    let r = try_frame_alloc(allocator, mem);
    r.unwrap()
}

/// Takes a frame from `allocator` and zeroes it; `OutOfMemory` when none is left.
pub fn try_frame_alloc(allocator: &mut FrameAllocator, mem: &mut PhysMemory) -> (r: Result<
    FrameTracker,
    MmError,
>)
    requires
        old(allocator).wf(),
        old(mem).wf(),
        old(allocator).covered_by(old(mem)),
    ensures
        final(allocator).wf(),
        final(mem).wf(),
        final(mem).base_spec() == old(mem).base_spec(),
        final(mem).frames_spec() == old(mem).frames_spec(),
        FrameAllocator::alloc_post(
            *old(allocator),
            *final(allocator),
            match r {
                Ok(t) => Some(t@),
                Err(_) => None,
            },
        ),
        r is Err ==> r == Err::<FrameTracker, MmError>(MmError::OutOfMemory) && *final(mem)
            == *old(mem),
        r is Ok ==> final(mem).frame_zero(r->Ok_0@) && final(mem).same_except(old(mem), r->Ok_0@),
{
    match allocator.allocate() {
        Some(f) => {
            mem.clear_frame(f.0.0);
            Ok(f)
        },
        None => Err(MmError::OutOfMemory),
    }
}

/// Returns frame `ppn`, which must be handed out at present, to `allocator`
/// without touching its contents.
pub fn frame_dealloc(allocator: &mut FrameAllocator, ppn: PhysPageNum)
    requires
        old(allocator).wf(),
        old(allocator).allocated(ppn.0),
    ensures
        final(allocator).wf(),
        FrameAllocator::dealloc_post(*old(allocator), *final(allocator), ppn.0, Ok(())),
        final(allocator).recycled_spec() == old(allocator).recycled_spec().push(ppn.0),
        final(allocator).current_spec() == old(allocator).current_spec(),
{
    allocator.dealloc(ppn)
}

} // verus!
