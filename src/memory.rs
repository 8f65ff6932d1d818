use vstd::prelude::*;
use crate::pte::PPN_LIMIT;

verus! {

/// Physical memory as a run of whole frames starting at page `base`. Each
/// frame holds 512 64-bit words; word `i` of frame `p` is the 8 bytes at
/// physical address `p * 4096 + i * 8`, least significant byte first.
pub struct PhysMemory {
    base: u64,
    frames: u64,
    words: Vec<u64>,
}

/// Byte `k` (0 is the least significant) of the word `w`.
pub open spec fn byte_of_word(w: u64, k: u64) -> u8 {
    ((w >> (k * 8)) & 0xffu64) as u8
}

proof fn lemma_slot_distinct(a: int, i: int, b: int, j: int)
    requires
        0 <= i < 512,
        0 <= j < 512,
        a * 512 + i == b * 512 + j,
    ensures
        a == b && i == j,
{
    assert(a == b) by (nonlinear_arith)
        requires
            0 <= i < 512,
            0 <= j < 512,
            a * 512 + i == b * 512 + j,
    ;
}

proof fn lemma_slot_bound(a: int, i: int, n: int)
    requires
        0 <= a < n,
        0 <= i < 512,
    ensures
        0 <= a * 512 + i < n * 512,
{
    assert(0 <= a * 512 + i < n * 512) by (nonlinear_arith)
        requires
            0 <= a < n,
            0 <= i < 512,
    ;
}

impl PhysMemory {
    pub closed spec fn base_spec(&self) -> u64 {
        self.base
    }

    pub closed spec fn frames_spec(&self) -> u64 {
        self.frames
    }

    pub closed spec fn wf(&self) -> bool {
        &&& self.words@.len() == self.frames * 512
        &&& self.base + self.frames <= PPN_LIMIT
    }

    /// Every frame of a well-formed memory has a page number that fits an entry.
    pub proof fn lemma_bounded(&self)
        requires
            self.wf(),
        ensures
            self.base_spec() + self.frames_spec() <= PPN_LIMIT,
    {
    }

    /// Whether frame `p` is part of this memory.
    pub open spec fn holds(&self, p: u64) -> bool {
        self.base_spec() <= p < self.base_spec() + self.frames_spec()
    }

    /// Word `i` of frame `p`.
    pub closed spec fn entry(&self, p: u64, i: int) -> u64 {
        self.words@[(p - self.base) * 512 + i]
    }

    /// Whether every word of frame `p` is zero.
    pub open spec fn frame_zero(&self, p: u64) -> bool {
        forall|i: int| 0 <= i < 512 ==> #[trigger] self.entry(p, i) == 0
    }

    /// Whether `self` and `other` agree on every word outside frame `p`.
    pub open spec fn same_except(&self, other: &PhysMemory, p: u64) -> bool {
        forall|q: u64, i: int|
            q != p && self.holds(q) && 0 <= i < 512 ==> #[trigger] self.entry(q, i) == other.entry(q, i)
    }

    /// Whether `self` and `other` agree on every word but word `i` of frame `p`.
    pub open spec fn same_except_slot(&self, other: &PhysMemory, p: u64, i: int) -> bool {
        forall|q: u64, j: int|
            !(q == p && j == i) && self.holds(q) && 0 <= j < 512 ==> #[trigger] self.entry(q, j)
                == other.entry(q, j)
    }

    /// The byte at physical address `a`.
    pub open spec fn byte_at(&self, a: u64) -> u8 {
        byte_of_word(self.entry(a / 4096, ((a % 4096) / 8) as int), a % 8)
    }

    /// A zeroed memory of `frames` frames whose first page number is `base`.
    pub fn new(base: u64, frames: u64) -> (r: PhysMemory)
        requires
            base + frames <= PPN_LIMIT,
            frames * 512 <= usize::MAX,
        ensures
            r.wf(),
            r.base_spec() == base,
            r.frames_spec() == frames,
            forall|p: u64| r.holds(p) ==> r.frame_zero(p),
    {
        let total: usize = (frames * 512) as usize;
        let mut words: Vec<u64> = Vec::new();
        let mut k: usize = 0;
        while k < total
            invariant
                k <= total,
                total == frames * 512,
                words@.len() == k,
                forall|j: int| 0 <= j < k ==> words@[j] == 0,
            decreases total - k,
        {
            words.push(0);
            k = k + 1;
        }
        let r = PhysMemory { base, frames, words };
        assert forall|p: u64| r.holds(p) implies r.frame_zero(p) by {
            assert forall|i: int| 0 <= i < 512 implies #[trigger] r.entry(p, i) == 0 by {
                lemma_slot_bound(p - base, i, frames as int);
            }
        }
        r
    }

    pub fn base(&self) -> (r: u64)
        ensures
            r == self.base_spec(),
    {
        self.base
    }

    pub fn frames(&self) -> (r: u64)
        ensures
            r == self.frames_spec(),
    {
        self.frames
    }

    /// Whether frame `p` is part of this memory.
    pub fn contains(&self, p: u64) -> (r: bool)
        ensures
            r == self.holds(p),
    {
        self.base <= p && p - self.base < self.frames
    }

    fn index(&self, p: u64, i: usize) -> (r: usize)
        requires
            self.wf(),
            self.holds(p),
            i < 512,
        ensures
            r as int == (p - self.base) * 512 + i,
            r < self.words@.len(),
    {
        proof {
            lemma_slot_bound(p - self.base, i as int, self.frames as int);
        }
        let n = self.words.len();
        let k: u64 = ((p - self.base) * 512) + i as u64;
        assert(k < n);
        k as usize
    }

    /// Word `i` of frame `p`.
    pub fn read(&self, p: u64, i: usize) -> (r: u64)
        requires
            self.wf(),
            self.holds(p),
            i < 512,
        ensures
            r == self.entry(p, i as int),
    {
        let k = self.index(p, i);
        self.words[k]
    }

    /// Sets word `i` of frame `p` to `v`, leaving every other word alone.
    pub fn write(&mut self, p: u64, i: usize, v: u64)
        requires
            old(self).wf(),
            old(self).holds(p),
            i < 512,
        ensures
            final(self).wf(),
            final(self).base_spec() == old(self).base_spec(),
            final(self).frames_spec() == old(self).frames_spec(),
            final(self).entry(p, i as int) == v,
            final(self).same_except_slot(old(self), p, i as int),
    {
        let k = self.index(p, i);
        self.words.set(k, v);
        proof {
            let s = *self;
            assert forall|q: u64, j: int|
                !(q == p && j == i) && s.holds(q) && 0 <= j < 512 implies #[trigger] s.entry(q, j)
                == old(self).entry(q, j) by {
                lemma_slot_bound(q - s.base, j, s.frames as int);
                if (q - s.base) * 512 + j == k as int {
                    lemma_slot_distinct(q - s.base, j, p - s.base, i as int);
                }
            }
        }
    }

    /// Sets every word of frame `p` to zero, leaving other frames alone.
    pub fn clear_frame(&mut self, p: u64)
        requires
            old(self).wf(),
            old(self).holds(p),
        ensures
            final(self).wf(),
            final(self).base_spec() == old(self).base_spec(),
            final(self).frames_spec() == old(self).frames_spec(),
            final(self).frame_zero(p),
            final(self).same_except(old(self), p),
    {
        let mut i: usize = 0;
        while i < 512
            invariant
                self.wf(),
                self.holds(p),
                self.base_spec() == old(self).base_spec(),
                self.frames_spec() == old(self).frames_spec(),
                i <= 512,
                forall|j: int| 0 <= j < i ==> #[trigger] self.entry(p, j) == 0,
                self.same_except(old(self), p),
            decreases 512 - i,
        {
            let ghost before = *self;
            self.write(p, i, 0);
            assert forall|j: int| 0 <= j < i + 1 implies #[trigger] self.entry(p, j) == 0 by {
                if j < i {
                    assert(before.entry(p, j) == 0);
                }
            }
            i = i + 1;
        }
    }

    /// The byte at physical address `a`.
    pub fn read_byte(&self, a: u64) -> (r: u8)
        requires
            self.wf(),
            self.holds(a / 4096),
        ensures
            r == self.byte_at(a),
    {
        let w = self.read(a / 4096, ((a % 4096) / 8) as usize);
        ((w >> ((a % 8) * 8)) & 0xffu64) as u8
    }
}

} // verus!
