use vstd::prelude::*;
use crate::addr::{level_index, PhysAddr, PhysPageNum, VirtAddr, VirtPageNum};
use crate::error::MmError;
use crate::frame::{lemma_allocate_fresh, try_frame_alloc, FrameAllocator, FrameTracker};
use crate::memory::PhysMemory;
use crate::pte::{
    bits_flags,
    bits_of,
    bits_ppn,
    bits_valid,
    lemma_bits_of,
    lemma_zero_invalid,
    PageTableEntry,
    PPN_LIMIT,
    PPN_MASK,
    PTE_V,
};

verus! {

/// Paging modes of the table-base register. Only `Sv39` is walked here.
#[derive(Clone, Copy, Debug, PartialEq, Eq, Structural)]
pub enum Mode {
    Bare,
    Sv32,
    Sv39,
    Sv48,
}

/// The tag that `mode` has in the top four bits of a table-base value.
pub open spec fn mode_tag(mode: Mode) -> u64 {
    match mode {
        Mode::Bare => 0,
        Mode::Sv32 => 1,
        Mode::Sv39 => 8,
        Mode::Sv48 => 9,
    }
}

/// The entry at `i` of frame `p`, or `None` when `mem` does not hold `p`.
pub open spec fn slot(mem: &PhysMemory, p: u64, i: nat) -> Option<u64> {
    if mem.holds(p) {
        Some(mem.entry(p, i as int))
    } else {
        None
    }
}

/// The Sv39 walk from node `root` for page `vpn`: the leaf entry reached, or
/// `None` when one of the two upper entries is not valid (or leaves memory).
pub open spec fn walk(mem: &PhysMemory, root: u64, vpn: nat) -> Option<u64> {
    match slot(mem, root, level_index(vpn, 0)) {
        None => None,
        Some(e0) => if !bits_valid(e0) {
            None
        } else {
            match slot(mem, bits_ppn(e0), level_index(vpn, 1)) {
                None => None,
                Some(e1) => if !bits_valid(e1) {
                    None
                } else {
                    slot(mem, bits_ppn(e1), level_index(vpn, 2))
                },
            }
        },
    }
}

/// The valid leaf entry mapping page `vpn`, if there is one.
pub open spec fn mapping(mem: &PhysMemory, root: u64, vpn: nat) -> Option<u64> {
    match walk(mem, root, vpn) {
        Some(e) => if bits_valid(e) {
            Some(e)
        } else {
            None
        },
        None => None,
    }
}

/// The leaf node a walk for `vpn` from `root` goes to, read from the two
/// upper entries whether or not they are valid.
pub open spec fn leaf_node(mem: &PhysMemory, root: u64, vpn: nat) -> u64 {
    bits_ppn(mem.entry(bits_ppn(mem.entry(root, level_index(vpn, 0) as int)), level_index(vpn, 1) as int))
}

/// The physical address that virtual address `va` translates to through the
/// table rooted at `root`, if its page is mapped.
pub open spec fn translation(mem: &PhysMemory, root: u64, va: u64) -> Option<int> {
    match mapping(mem, root, (va / 4096) as nat) {
        Some(b) => Some(bits_ppn(b) * 4096 + va % 4096),
        None => None,
    }
}

/// Whether pages `v` and `w` use the same index at every level of the walk.
pub open spec fn same_path(v: nat, w: nat) -> bool {
    &&& level_index(v, 0) == level_index(w, 0)
    &&& level_index(v, 1) == level_index(w, 1)
    &&& level_index(v, 2) == level_index(w, 2)
}

/// Whether no two valid upper-level entries of the nodes in `lv` point to the
/// same child.
pub open spec fn unique_parents(lv: Map<u64, nat>, mem: &PhysMemory) -> bool {
    forall|p: u64, i: int, q: u64, j: int|
        lv.contains_key(p) && lv[p] < 2 && 0 <= i < 512 && bits_valid(#[trigger] mem.entry(p, i))
            && lv.contains_key(q) && lv[q] < 2 && 0 <= j < 512 && bits_valid(
            #[trigger] mem.entry(q, j),
        ) && bits_ppn(mem.entry(p, i)) == bits_ppn(mem.entry(q, j)) ==> p == q && i == j
}

/// Whether `e` is an upper-level entry that points at its child node and
/// carries the valid flag alone (any of R, W, X would make it a leaf).
pub open spec fn child_pointer(e: u64) -> bool {
    e == bits_of(bits_ppn(e), PTE_V)
}

/// How many upper-level nodes a walk for `vpn` finds missing: 2 when the root
/// entry is not valid, 1 when the second-level entry is not, else 0.
pub open spec fn missing_nodes(mem: &PhysMemory, root: u64, vpn: nat) -> nat {
    let e0 = mem.entry(root, level_index(vpn, 0) as int);
    if !bits_valid(e0) {
        2
    } else if !bits_valid(mem.entry(bits_ppn(e0), level_index(vpn, 1) as int)) {
        1
    } else {
        0
    }
}

/// A three-level Sv39 page table rooted at frame `root`. An owning table holds
/// the trackers of every node frame it built; a view made from a raw
/// table-base value owns none and never frees anything.
pub struct PageTable {
    root: PhysPageNum,
    frames: Vec<FrameTracker>,
    /// The level of each node frame this table built: 0 for the root, 1 and
    /// 2 below it.
    levels: Ghost<Map<u64, nat>>,
}

impl PageTable {
    pub closed spec fn root_spec(&self) -> u64 {
        self.root.0
    }

    pub closed spec fn levels_spec(&self) -> Map<u64, nat> {
        self.levels@
    }

    /// The frames this table owns.
    pub closed spec fn owned(&self) -> Seq<u64> {
        self.frames@.map_values(|t: FrameTracker| t@)
    }

    /// The leaf entry a walk of this table reaches for `vpn`.
    pub open spec fn lookup_spec(&self, mem: &PhysMemory, vpn: nat) -> Option<u64> {
        walk(mem, self.root_spec(), vpn)
    }

    /// The valid leaf entry mapping `vpn` in this table, if there is one.
    pub open spec fn mapping_spec(&self, mem: &PhysMemory, vpn: nat) -> Option<u64> {
        mapping(mem, self.root_spec(), vpn)
    }

    /// An owning table whose node frames all come from `alloc`, lie in `mem`,
    /// and sit at one level each, every valid upper entry pointing one level
    /// down.
    pub open spec fn wf(&self, alloc: &FrameAllocator, mem: &PhysMemory) -> bool {
        let lv = self.levels_spec();
        &&& mem.wf()
        &&& alloc.wf()
        &&& alloc.covered_by(mem)
        &&& lv.contains_key(self.root_spec())
        &&& lv[self.root_spec()] == 0
        &&& forall|p: u64| #[trigger]
            lv.contains_key(p) ==> alloc.allocated(p) && lv[p] <= 2 && (lv[p] == 0 ==> p
                == self.root_spec())
        &&& forall|p: u64, i: int|
            lv.contains_key(p) && lv[p] < 2 && 0 <= i < 512 && bits_valid(
                #[trigger] mem.entry(p, i),
            ) ==> lv.contains_key(bits_ppn(mem.entry(p, i))) && lv[bits_ppn(mem.entry(p, i))]
                == lv[p] + 1
        &&& forall|k: int| 0 <= k < self.owned().len() ==> lv.contains_key(#[trigger] self.owned()[k])
        &&& self.owns_frames(alloc)
        &&& unique_parents(lv, mem)
    }

    /// Every frame this table owns is handed out, and it owns each only once.
    pub open spec fn owns_frames(&self, alloc: &FrameAllocator) -> bool {
        &&& self.owned().no_duplicates()
        &&& forall|k: int| 0 <= k < self.owned().len() ==> alloc.allocated(#[trigger] self.owned()[k])
    }

    /// A new owning table with one zeroed root frame taken from `alloc`,
    /// which must have a frame left.
    pub fn new(alloc: &mut FrameAllocator, mem: &mut PhysMemory) -> (t: PageTable)
        requires
            old(alloc).wf(),
            old(mem).wf(),
            old(alloc).covered_by(old(mem)),
            old(alloc).available() > 0,
        ensures
            final(alloc).wf(),
            final(mem).wf(),
            final(alloc).covered_by(final(mem)),
            t.wf(final(alloc), final(mem)),
            !old(alloc).allocated(t.root_spec()),
            final(mem).frame_zero(t.root_spec()),
            final(mem).same_except(old(mem), t.root_spec()),
            FrameAllocator::alloc_post(*old(alloc), *final(alloc), Some(t.root_spec())),
            t.levels_spec() == map![t.root_spec() => 0nat],
            t.owned() == seq![t.root_spec()],
    {
        let r = PageTable::try_new(alloc, mem);
        r.unwrap()
    }

    /// A new owning table with one zeroed root frame taken from `alloc`;
    /// `OutOfMemory` when `alloc` has no frame left.
    pub fn try_new(alloc: &mut FrameAllocator, mem: &mut PhysMemory) -> (r: Result<PageTable, MmError>)
        requires
            old(alloc).wf(),
            old(mem).wf(),
            old(alloc).covered_by(old(mem)),
        ensures
            final(alloc).wf(),
            final(mem).wf(),
            final(alloc).covered_by(final(mem)),
            r is Err <==> old(alloc).available() == 0,
            r is Err ==> r == Err::<PageTable, MmError>(MmError::OutOfMemory) && *final(alloc) == *old(
                alloc,
            ) && *final(mem) == *old(mem),
            r matches Ok(t) ==> {
                &&& t.wf(final(alloc), final(mem))
                &&& !old(alloc).allocated(t.root_spec())
                &&& final(mem).frame_zero(t.root_spec())
                &&& final(mem).same_except(old(mem), t.root_spec())
                &&& FrameAllocator::alloc_post(*old(alloc), *final(alloc), Some(t.root_spec()))
                &&& t.levels_spec() == map![t.root_spec() => 0nat]
                &&& t.owned() == seq![t.root_spec()]
            },
    {
        let ghost a0 = *alloc;
        match try_frame_alloc(alloc, mem) {
            Ok(f) => {
                let root = f.ppn();
                let mut frames: Vec<FrameTracker> = Vec::new();
                frames.push(f);
                let ghost lv = map![root.0 => 0nat];
                let t = PageTable { root, frames, levels: Ghost(lv) };
                proof {
                    lemma_allocate_fresh(a0, *alloc, Some(root.0));
                    lemma_zero_invalid();
                    assert(t.owned()[0] == root.0);
                    assert(t.owned() =~= seq![root.0]);
                }
                Ok(t)
            },
            Err(e) => {
                proof {
                    lemma_allocate_fresh(a0, *alloc, None);
                }
                Err(e)
            },
        }
    }

    /// A non-owning view of the table whose root page number is in the low 44
    /// bits of the table-base value `satp`.
    pub fn from_satp(satp: u64) -> (r: PageTable)
        ensures
            r.root_spec() == satp & 0xfff_ffff_ffffu64,
            r.owned().len() == 0,
    {
        let t = PageTable {
            root: PhysPageNum(satp & PPN_MASK),
            frames: Vec::new(),
            levels: Ghost(Map::<u64, nat>::empty()),
        };
        assert(t.owned().len() == 0);
        t
    }

    pub fn root(&self) -> (r: PhysPageNum)
        ensures
            r.0 == self.root_spec(),
    {
        self.root
    }

    /// The table-base value that selects `mode` with this table as root.
    pub fn satp_bits(&self, mode: Mode) -> (r: u64)
        requires
            self.root_spec() < PPN_LIMIT,
        ensures
            r == (mode_tag(mode) << 60u64) | self.root_spec(),
            r & 0xfff_ffff_ffffu64 == self.root_spec(),
            r >> 60u64 == mode_tag(mode),
    {
        let tag: u64 = match mode {
            Mode::Bare => 0,
            Mode::Sv32 => 1,
            Mode::Sv39 => 8,
            Mode::Sv48 => 9,
        };
        let root = self.root.0;
        assert(((tag << 60u64) | root) & 0xfff_ffff_ffffu64 == root) by (bit_vector)
            requires
                root < 0x1000_0000_0000u64,
        ;
        assert(((tag << 60u64) | root) >> 60u64 == tag) by (bit_vector)
            requires
                root < 0x1000_0000_0000u64,
                tag < 16,
        ;
        (tag << 60u64) | root
    }

    /// The frame of the leaf node for `vpn` and the leaf entry in it, or
    /// `None` when the walk stops early.
    fn find_pte(&self, vpn: VirtPageNum, mem: &PhysMemory) -> (r: Option<(u64, PageTableEntry)>)
        requires
            mem.wf(),
        ensures
            match r {
                Some((p, e)) => self.lookup_spec(mem, vpn.0 as nat) == Some(e.bits) && mem.holds(p)
                    && e.bits == mem.entry(p, level_index(vpn.0 as nat, 2) as int) && p == leaf_node(
                    mem,
                    self.root_spec(),
                    vpn.0 as nat,
                ),
                None => self.lookup_spec(mem, vpn.0 as nat) is None,
            },
    {
        let idx = vpn.indexes();
        let mut p = self.root.0;
        if !mem.contains(p) {
            return None;
        }
        let e0 = PageTableEntry { bits: mem.read(p, idx[0]) };
        if !e0.is_valid() {
            return None;
        }
        p = e0.ppn().0;
        if !mem.contains(p) {
            return None;
        }
        let e1 = PageTableEntry { bits: mem.read(p, idx[1]) };
        if !e1.is_valid() {
            return None;
        }
        p = e1.ppn().0;
        if !mem.contains(p) {
            return None;
        }
        Some((p, PageTableEntry { bits: mem.read(p, idx[2]) }))
    }

    /// The leaf entry for `vpn`, or `None` when one of the two upper entries
    /// on the way is not valid.
    pub fn translate(&self, vpn: VirtPageNum, mem: &PhysMemory) -> (r: Option<PageTableEntry>)
        requires
            mem.wf(),
        ensures
            match self.lookup_spec(mem, vpn.0 as nat) {
                Some(b) => r == Some(PageTableEntry { bits: b }),
                None => r is None,
            },
    {
        match self.find_pte(vpn, mem) {
            Some((_, e)) => Some(e),
            None => None,
        }
    }

    /// The physical address that `va` maps to: the base of the mapped frame
    /// plus the offset of `va` in its page. `TranslationMiss` when no valid
    /// leaf maps the page.
    pub fn translate_va_to_pa(&self, va: VirtAddr, mem: &PhysMemory) -> (r: Result<PhysAddr, MmError>)
        requires
            mem.wf(),
        ensures
            match translation(mem, self.root_spec(), va.0) {
                Some(a) => r == Ok::<PhysAddr, MmError>(PhysAddr(a as u64)) && a < 0x1_0000_0000_0000_0000,
                None => r == Err::<PhysAddr, MmError>(MmError::TranslationMiss),
            },
    {
        match self.find_pte(va.floor(), mem) {
            Some((_, e)) => {
                if !e.is_valid() {
                    return Err(MmError::TranslationMiss);
                }
                let base = e.ppn().base_addr();
                Ok(PhysAddr(base.0 + va.page_offset()))
            },
            None => Err(MmError::TranslationMiss),
        }
    }
}

impl PageTable {
    /// Makes sure entry `i` of node `p` (at level `level`, above the leaves)
    /// is valid, installing a fresh zeroed node one level down when it is
    /// not. Returns the child node.
    fn ensure_child(
        &mut self,
        p: u64,
        i: usize,
        level: Ghost<nat>,
        alloc: &mut FrameAllocator,
        mem: &mut PhysMemory,
    ) -> (r: u64)
        requires
            old(self).wf(old(alloc), old(mem)),
            old(self).levels_spec().contains_key(p),
            old(self).levels_spec()[p] == level@,
            level@ < 2,
            i < 512,
            !bits_valid(old(mem).entry(p, i as int)) ==> old(alloc).available() >= 1,
        ensures
            final(self).wf(final(alloc), final(mem)),
            final(self).root_spec() == old(self).root_spec(),
            final(mem).base_spec() == old(mem).base_spec(),
            final(mem).frames_spec() == old(mem).frames_spec(),
            bits_valid(final(mem).entry(p, i as int)),
            bits_ppn(final(mem).entry(p, i as int)) == r,
            final(alloc).start_spec() == old(alloc).start_spec(),
            final(alloc).end_spec() == old(alloc).end_spec(),
            final(alloc).available() == old(alloc).available() - if bits_valid(
                old(mem).entry(p, i as int),
            ) {
                0int
            } else {
                1int
            },
            final(self).levels_spec().contains_key(r),
            final(self).levels_spec()[r] == level@ + 1,
            bits_valid(old(mem).entry(p, i as int)) ==> *final(self) == *old(self) && *final(alloc)
                == *old(alloc) && *final(mem) == *old(mem),
            forall|v: nat| #[trigger]
                mapping(final(mem), final(self).root_spec(), v) == mapping(
                    old(mem),
                    old(self).root_spec(),
                    v,
                ),
            !bits_valid(old(mem).entry(p, i as int)) ==> {
                &&& !old(alloc).allocated(r)
                &&& FrameAllocator::alloc_post(*old(alloc), *final(alloc), Some(r))
                &&& final(mem).frame_zero(r)
                &&& final(self).levels_spec() == old(self).levels_spec().insert(r, level@ + 1)
                &&& final(mem).entry(p, i as int) == bits_of(r, PTE_V)
                &&& final(self).owned() == old(self).owned().push(r)
                &&& forall|q: u64, j: int|
                    q != r && !(q == p && j == i) && final(mem).holds(q) && 0 <= j < 512
                        ==> #[trigger] final(mem).entry(q, j) == old(mem).entry(q, j)
            },
    {
        let e = PageTableEntry { bits: mem.read(p, i) };
        if e.is_valid() {
            return e.ppn().0;
        }
        let ghost a0 = *alloc;
        let ghost m0 = *mem;
        let ghost lv0 = self.levels@;
        let f = match try_frame_alloc(alloc, mem) {
            Ok(f) => f,
            Err(_) => {
                proof {
                    lemma_allocate_fresh(a0, *alloc, None);
                }
                return p;
            },
        };
        let c = f.ppn();
        proof {
            lemma_allocate_fresh(a0, *alloc, Some(c.0));
            mem.lemma_bounded();
        }
        let ne = PageTableEntry::new(c, PTE_V);
        let ghost m1 = *mem;
        mem.write(p, i, ne.bits);
        self.frames.push(f);
        assert(self.owned() =~= old(self).owned().push(c.0));
        let ghost lv1 = lv0.insert(c.0, level@ + 1);
        self.levels = Ghost(lv1);
        proof {
            lemma_zero_invalid();
            assert(PTE_V & 1u8 != 0) by (bit_vector);
            assert(!lv0.contains_key(c.0));
            assert forall|q: u64, j: int|
                q != c.0 && !(q == p && j == i) && mem.holds(q) && 0 <= j < 512 implies #[trigger] mem.entry(q, j)
                == m0.entry(q, j) by {
                assert(mem.entry(q, j) == m1.entry(q, j));
            }
            assert forall|q: u64| #[trigger]
                lv1.contains_key(q) implies alloc.allocated(q) && lv1[q] <= 2 && (lv1[q] == 0 ==> q
                == self.root.0) by {
                if q != c.0 {
                    assert(lv0.contains_key(q));
                }
            }
            assert forall|q: u64, j: int|
                lv1.contains_key(q) && lv1[q] < 2 && 0 <= j < 512 && bits_valid(
                    #[trigger] mem.entry(q, j),
                ) implies lv1.contains_key(bits_ppn(mem.entry(q, j))) && lv1[bits_ppn(mem.entry(q, j))]
                == lv1[q] + 1 by {
                if q == c.0 {
                    assert(m1.entry(q, j) == 0);
                    assert(mem.entry(q, j) == 0);
                } else if q == p && j == i {
                } else {
                    assert(lv0.contains_key(q));
                    assert(alloc.allocated(q));
                    assert(mem.entry(q, j) == m0.entry(q, j));
                    assert(lv0.contains_key(bits_ppn(m0.entry(q, j))));
                }
            }
            assert forall|q1: u64, j1: int, q2: u64, j2: int|
                lv1.contains_key(q1) && lv1[q1] < 2 && 0 <= j1 < 512 && bits_valid(
                    #[trigger] mem.entry(q1, j1),
                ) && lv1.contains_key(q2) && lv1[q2] < 2 && 0 <= j2 < 512 && bits_valid(
                    #[trigger] mem.entry(q2, j2),
                ) && bits_ppn(mem.entry(q1, j1)) == bits_ppn(mem.entry(q2, j2)) implies q1 == q2 && j1
                == j2 by {
                if q1 == c.0 {
                    assert(m1.entry(q1, j1) == 0);
                } else if q2 == c.0 {
                    assert(m1.entry(q2, j2) == 0);
                } else if q1 == p && j1 == i {
                    if !(q2 == p && j2 == i) {
                        assert(mem.entry(q2, j2) == m0.entry(q2, j2));
                        assert(lv0.contains_key(bits_ppn(m0.entry(q2, j2))));
                    }
                } else if q2 == p && j2 == i {
                    assert(mem.entry(q1, j1) == m0.entry(q1, j1));
                    assert(lv0.contains_key(bits_ppn(m0.entry(q1, j1))));
                } else {
                    assert(lv0.contains_key(q1) && lv0.contains_key(q2));
                    assert(alloc.allocated(q1) && alloc.allocated(q2));
                    assert(mem.entry(q1, j1) == m0.entry(q1, j1));
                    assert(mem.entry(q2, j2) == m0.entry(q2, j2));
                }
            }
            let root = self.root.0;
            assert forall|v: nat| #[trigger]
                mapping(mem, root, v) == mapping(&m0, root, v) by {
                let j0 = level_index(v, 0) as int;
                let j1 = level_index(v, 1) as int;
                let j2 = level_index(v, 2) as int;
                assert(alloc.allocated(root));
                if !(root == p && j0 == i) {
                    assert(mem.entry(root, j0) == m0.entry(root, j0));
                    let e0 = m0.entry(root, j0);
                    if bits_valid(e0) {
                        let d1 = bits_ppn(e0);
                        assert(lv0.contains_key(d1) && lv0[d1] == 1);
                        assert(a0.allocated(d1));
                        if !(d1 == p && j1 == i) {
                            assert(mem.entry(d1, j1) == m0.entry(d1, j1));
                            let e1 = m0.entry(d1, j1);
                            if bits_valid(e1) {
                                let d2 = bits_ppn(e1);
                                assert(lv0.contains_key(d2) && lv0[d2] == 2);
                                assert(a0.allocated(d2));
                                assert(mem.entry(d2, j2) == m0.entry(d2, j2));
                            }
                        } else {
                            assert(m1.entry(c.0, j2) == 0);
                        }
                    }
                } else {
                    assert(m1.entry(c.0, j1) == 0);
                }
            }
            assert forall|k: int| 0 <= k < self.owned().len() implies lv1.contains_key(
                #[trigger] self.owned()[k],
            ) && alloc.allocated(self.owned()[k]) by {
                if k < old(self).owned().len() {
                    assert(self.owned()[k] == old(self).owned()[k]);
                    assert(a0.allocated(old(self).owned()[k]));
                } else {
                    assert(self.owned()[k] == c.0);
                }
            }
            assert forall|k: int, l: int|
                0 <= k < self.owned().len() && 0 <= l < self.owned().len() && k != l implies self.owned()[k]
                != self.owned()[l] by {
                let n = old(self).owned().len();
                if k < n && l < n {
                    assert(self.owned()[k] == old(self).owned()[k]);
                    assert(self.owned()[l] == old(self).owned()[l]);
                } else if k < n {
                    assert(self.owned()[k] == old(self).owned()[k]);
                    assert(a0.allocated(old(self).owned()[k]));
                } else if l < n {
                    assert(self.owned()[l] == old(self).owned()[l]);
                    assert(a0.allocated(old(self).owned()[l]));
                }
            }
        }
        c.0
    }

    /// The leaf node for `vpn`, creating the missing upper-level nodes on the
    /// way from frames of `alloc`.
    fn find_pte_by_create(
        &mut self,
        vpn: VirtPageNum,
        alloc: &mut FrameAllocator,
        mem: &mut PhysMemory,
    ) -> (r: u64)
        requires
            old(self).wf(old(alloc), old(mem)),
            missing_nodes(old(mem), old(self).root_spec(), vpn.0 as nat) <= old(alloc).available(),
        ensures
            final(self).wf(final(alloc), final(mem)),
            final(self).root_spec() == old(self).root_spec(),
            final(mem).base_spec() == old(mem).base_spec(),
            final(mem).frames_spec() == old(mem).frames_spec(),
            final(self).levels_spec().contains_key(r),
            final(self).levels_spec()[r] == 2,
            r == leaf_node(final(mem), final(self).root_spec(), vpn.0 as nat),
            final(alloc).start_spec() == old(alloc).start_spec(),
            final(alloc).end_spec() == old(alloc).end_spec(),
            final(alloc).available() == old(alloc).available() - missing_nodes(
                old(mem),
                old(self).root_spec(),
                vpn.0 as nat,
            ),
            forall|v: nat| #[trigger]
                mapping(final(mem), final(self).root_spec(), v) == mapping(
                    old(mem),
                    old(self).root_spec(),
                    v,
                ),
            final(self).lookup_spec(final(mem), vpn.0 as nat) == Some(
                final(mem).entry(r, level_index(vpn.0 as nat, 2) as int),
            ),
            missing_nodes(old(mem), old(self).root_spec(), vpn.0 as nat) == 0 ==> *final(self)
                == *old(self) && *final(alloc) == *old(alloc) && *final(mem) == *old(mem),
            missing_nodes(old(mem), old(self).root_spec(), vpn.0 as nat) > 0 ==> final(mem).entry(
                r,
                level_index(vpn.0 as nat, 2) as int,
            ) == 0,
            new_nodes_post(
                *old(self),
                *old(alloc),
                *old(mem),
                *final(self),
                *final(mem),
                vpn.0 as nat,
            ),
    {
        let idx = vpn.indexes();
        let root = self.root.0;
        let ghost m0 = *mem;
        let ghost a0 = *alloc;
        let c1 = self.ensure_child(root, idx[0], Ghost(0nat), alloc, mem);
        let ghost m1 = *mem;
        let ghost a1 = *alloc;
        proof {
            if !bits_valid(m0.entry(root, idx[0] as int)) {
                lemma_allocate_fresh(a0, a1, Some(c1));
                assert(m1.entry(c1, idx[1] as int) == 0);
                lemma_zero_invalid();
            }
        }
        let c2 = self.ensure_child(c1, idx[1], Ghost(1nat), alloc, mem);
        proof {
            let lv = self.levels@;
            assert(lv[root] == 0);
            assert(lv[c1] == 1);
            assert(lv[c2] == 2);
            assert(mem.entry(root, idx[0] as int) == m1.entry(root, idx[0] as int));
            assert(alloc.allocated(root) && alloc.allocated(c1) && alloc.allocated(c2));
            if !bits_valid(m0.entry(root, idx[0] as int)) {
                assert(mem.entry(c2, idx[2] as int) == 0);
                lemma_allocate_fresh(a0, a1, Some(c1));
                assert(!a1.allocated(c2));
                assert(c2 != c1);
            } else if !bits_valid(m1.entry(c1, idx[1] as int)) {
                assert(mem.entry(c2, idx[2] as int) == 0);
            }
            let n0 = old(self).owned().len();
            assert(self.owned().subrange(0, n0 as int) =~= old(self).owned());
        }
        c2
    }

    /// Maps page `vpn`, which must not be mapped yet, to frame `ppn` with
    /// `flags` (the valid bit is added). `alloc` must have a frame for each
    /// upper-level node the walk lacks.
    pub fn map(
        &mut self,
        vpn: VirtPageNum,
        ppn: PhysPageNum,
        flags: u8,
        alloc: &mut FrameAllocator,
        mem: &mut PhysMemory,
    )
        requires
            old(self).wf(old(alloc), old(mem)),
            ppn.0 < PPN_LIMIT,
            old(self).mapping_spec(old(mem), vpn.0 as nat) is None,
            missing_nodes(old(mem), old(self).root_spec(), vpn.0 as nat) <= old(alloc).available(),
        ensures
            map_post(
                *old(self),
                *old(alloc),
                *old(mem),
                *final(self),
                *final(alloc),
                *final(mem),
                vpn.0 as nat,
                ppn.0,
                flags,
                Ok(()),
            ),
    {
        let r = self.try_map(vpn, ppn, flags, alloc, mem);
        assert(r is Ok);
    }

    /// Maps page `vpn` to frame `ppn` with `flags` (the valid bit is added).
    /// Fails with `MappingConflict` when `vpn` is mapped already, and with
    /// `OutOfMemory` when the nodes the walk lacks outnumber the free frames;
    /// a failed call changes nothing.
    pub fn try_map(
        &mut self,
        vpn: VirtPageNum,
        ppn: PhysPageNum,
        flags: u8,
        alloc: &mut FrameAllocator,
        mem: &mut PhysMemory,
    ) -> (r: Result<(), MmError>)
        requires
            old(self).wf(old(alloc), old(mem)),
            ppn.0 < PPN_LIMIT,
        ensures
            map_post(
                *old(self),
                *old(alloc),
                *old(mem),
                *final(self),
                *final(alloc),
                *final(mem),
                vpn.0 as nat,
                ppn.0,
                flags,
                r,
            ),
    {
        let idx = vpn.indexes();
        let root = self.root.0;
        let e0 = PageTableEntry { bits: mem.read(root, idx[0]) };
        let missing: u64 = if !e0.is_valid() {
            2
        } else {
            let c1 = e0.ppn().0;
            proof {
                assert(self.levels@.contains_key(c1));
                assert(alloc.allocated(c1));
            }
            let e1 = PageTableEntry { bits: mem.read(c1, idx[1]) };
            if !e1.is_valid() {
                1
            } else {
                let c2 = e1.ppn().0;
                proof {
                    assert(self.levels@.contains_key(c2));
                    assert(alloc.allocated(c2));
                }
                let leaf = PageTableEntry { bits: mem.read(c2, idx[2]) };
                if leaf.is_valid() {
                    return Err(MmError::MappingConflict);
                }
                0
            }
        };
        if missing > alloc.available_frames() {
            return Err(MmError::OutOfMemory);
        }
        let ghost t0 = *self;
        let ghost m0 = *mem;
        let ghost a0 = *alloc;
        let p = self.find_pte_by_create(vpn, alloc, mem);
        let ghost m1 = *mem;
        let lf = flags | PTE_V;
        let ne = PageTableEntry::new(ppn, lf);
        mem.write(p, idx[2], ne.bits);
        proof {
            assert(lf & 1u8 != 0) by (bit_vector)
                requires
                    lf == flags | 1u8,
            ;
            self.lemma_leaf_write(*alloc, m1, *mem, p, idx[2] as int);
            let lv = self.levels@;
            let e0 = mem.entry(root, idx[0] as int);
            assert(e0 == m1.entry(root, idx[0] as int));
            assert(lv[bits_ppn(e0)] == 1);
            assert(mem.entry(bits_ppn(e0), idx[1] as int) == m1.entry(bits_ppn(e0), idx[1] as int));
            let v0 = vpn.0 as nat;
            assert(walk(&m1, root, v0) is Some);
            assert forall|v: nat| !same_path(v, v0) implies #[trigger] self.mapping_spec(&*mem, v)
                == t0.mapping_spec(&m0, v) by {
                assert(walk(&*mem, root, v) == walk(&m1, root, v));
                assert(mapping(&m1, root, v) == mapping(&m0, root, v));
            }
            assert(new_nodes_post(t0, a0, m0, *self, *mem, v0));
        }
        Ok(())
    }

    /// Writing a leaf node keeps the table well formed.
    proof fn lemma_leaf_write(
        &self,
        alloc: FrameAllocator,
        m0: PhysMemory,
        m1: PhysMemory,
        p: u64,
        i: int,
    )
        requires
            self.wf(&alloc, &m0),
            m1.wf(),
            m1.base_spec() == m0.base_spec(),
            m1.frames_spec() == m0.frames_spec(),
            self.levels_spec().contains_key(p),
            self.levels_spec()[p] == 2,
            0 <= i < 512,
            m1.same_except_slot(&m0, p, i),
        ensures
            self.wf(&alloc, &m1),
            forall|vpn: nat, v: nat|
                walk(&m0, self.root_spec(), vpn) is Some && p == leaf_node(&m0, self.root_spec(), vpn)
                    && i == level_index(vpn, 2) && !same_path(v, vpn) ==> #[trigger] walk(
                    &m1,
                    self.root_spec(),
                    v,
                ) == walk(&m0, self.root_spec(), v) && #[trigger] walk(&m1, self.root_spec(), vpn) is Some,
            forall|q: u64, j: int|
                self.levels_spec().contains_key(q) && self.levels_spec()[q] < 2 && 0 <= j < 512
                    ==> #[trigger] m1.entry(q, j) == m0.entry(q, j),
    {
        let lv = self.levels_spec();
        assert forall|q: u64, j: int|
            lv.contains_key(q) && lv[q] < 2 && 0 <= j < 512 implies #[trigger] m1.entry(q, j)
            == m0.entry(q, j) by {
            assert(alloc.allocated(q));
        }
        assert forall|q: u64, j: int|
            lv.contains_key(q) && lv[q] < 2 && 0 <= j < 512 && bits_valid(#[trigger] m1.entry(q, j))
                implies lv.contains_key(bits_ppn(m1.entry(q, j))) && lv[bits_ppn(m1.entry(q, j))]
            == lv[q] + 1 by {
            assert(m1.entry(q, j) == m0.entry(q, j));
        }
        let root = self.root_spec();
        assert forall|vpn: nat, v: nat|
            walk(&m0, root, vpn) is Some && p == leaf_node(&m0, root, vpn) && i == level_index(vpn, 2)
                && !same_path(v, vpn) implies #[trigger] walk(&m1, root, v) == walk(&m0, root, v)
            && #[trigger] walk(&m1, root, vpn) is Some by {
            let i0 = level_index(vpn, 0) as int;
            let i1 = level_index(vpn, 1) as int;
            let c1 = bits_ppn(m0.entry(root, i0));
            assert(lv[c1] == 1);
            assert(lv[p] == 2);
            assert(m1.entry(root, i0) == m0.entry(root, i0));
            assert(m1.entry(c1, i1) == m0.entry(c1, i1));
            let j0 = level_index(v, 0) as int;
            let j1 = level_index(v, 1) as int;
            let j2 = level_index(v, 2) as int;
            assert(m1.entry(root, j0) == m0.entry(root, j0));
            let e0 = m0.entry(root, j0);
            if bits_valid(e0) {
                let d1 = bits_ppn(e0);
                assert(lv[d1] == 1);
                assert(m1.entry(d1, j1) == m0.entry(d1, j1));
                let e1 = m0.entry(d1, j1);
                if bits_valid(e1) {
                    let d2 = bits_ppn(e1);
                    assert(lv[d2] == 2);
                    if d2 == p && j2 == i {
                        assert(d1 == c1 && j1 == i1);
                        assert(j0 == i0);
                    }
                    assert(m1.entry(d2, j2) == m0.entry(d2, j2));
                }
            }
        }
    }

    /// Removes the mapping of page `vpn`, which must be mapped.
    pub fn unmap(&mut self, vpn: VirtPageNum, alloc: &FrameAllocator, mem: &mut PhysMemory)
        requires
            old(self).wf(alloc, old(mem)),
            old(self).mapping_spec(old(mem), vpn.0 as nat) is Some,
        ensures
            unmap_post(*old(self), *alloc, *old(mem), *final(self), *final(mem), vpn.0 as nat, Ok(())),
    {
        let r = self.try_unmap(vpn, alloc, mem);
        assert(r is Ok);
    }

    /// Removes the mapping of page `vpn`. Fails with `UnmappingInvalid`, and
    /// changes nothing, when `vpn` is not mapped.
    pub fn try_unmap(&mut self, vpn: VirtPageNum, alloc: &FrameAllocator, mem: &mut PhysMemory) -> (r:
        Result<(), MmError>)
        requires
            old(self).wf(alloc, old(mem)),
        ensures
            unmap_post(*old(self), *alloc, *old(mem), *final(self), *final(mem), vpn.0 as nat, r),
    {
        let ghost m0 = *mem;
        match self.find_pte(vpn, mem) {
            Some((p, e)) => {
                if !e.is_valid() {
                    return Err(MmError::UnmappingInvalid);
                }
                let idx = vpn.indexes();
                let root = self.root.0;
                proof {
                    let lv = self.levels@;
                    let e0 = m0.entry(root, idx[0] as int);
                    assert(lv[bits_ppn(e0)] == 1);
                    let e1 = m0.entry(bits_ppn(e0), idx[1] as int);
                    assert(bits_ppn(e1) == p);
                    assert(lv[p] == 2);
                }
                mem.write(p, idx[2], 0);
                proof {
                    lemma_zero_invalid();
                    self.lemma_leaf_write(*alloc, m0, *mem, p, idx[2] as int);
                    let lv = self.levels@;
                    let e0 = mem.entry(root, idx[0] as int);
                    assert(e0 == m0.entry(root, idx[0] as int));
                    assert(lv[bits_ppn(e0)] == 1);
                    assert(mem.entry(bits_ppn(e0), idx[1] as int) == m0.entry(bits_ppn(e0), idx[1] as int));
                }
                Ok(())
            },
            None => Err(MmError::UnmappingInvalid),
        }
    }
}

impl PageTable {
    /// Discards the table, zeroing every frame it owns and returning it to
    /// `alloc`. A view owns no frame, so releasing it frees nothing.
    pub fn release(self, alloc: &mut FrameAllocator, mem: &mut PhysMemory)
        requires
            old(alloc).wf(),
            old(mem).wf(),
            old(alloc).covered_by(old(mem)),
            self.owns_frames(old(alloc)),
        ensures
            final(alloc).wf(),
            final(mem).wf(),
            final(mem).base_spec() == old(mem).base_spec(),
            final(mem).frames_spec() == old(mem).frames_spec(),
            final(alloc).start_spec() == old(alloc).start_spec(),
            final(alloc).end_spec() == old(alloc).end_spec(),
            final(alloc).current_spec() == old(alloc).current_spec(),
            final(alloc).live_count() == old(alloc).live_count() - self.owned().len(),
            forall|k: int|
                0 <= k < self.owned().len() ==> !final(alloc).allocated(#[trigger] self.owned()[k])
                    && final(mem).frame_zero(self.owned()[k]),
            forall|q: u64|
                !self.owned().contains(q) ==> (#[trigger] final(alloc).allocated(q)
                    <==> old(alloc).allocated(q)),
            forall|q: u64, i: int|
                !self.owned().contains(q) && final(mem).holds(q) && 0 <= i < 512
                    ==> #[trigger] final(mem).entry(q, i) == old(mem).entry(q, i),
    {
        let ghost o = self.owned();
        let ghost a0 = *alloc;
        let ghost m0 = *mem;
        assert forall|k: int| 0 <= k < o.len() implies mem.holds(#[trigger] o[k]) by {
            assert(a0.allocated(o[k]));
        }
        let mut frames = self.frames;
        while frames.len() > 0
            invariant
                alloc.wf(),
                mem.wf(),
                alloc.covered_by(mem),
                mem.base_spec() == m0.base_spec(),
                mem.frames_spec() == m0.frames_spec(),
                alloc.start_spec() == a0.start_spec(),
                alloc.end_spec() == a0.end_spec(),
                alloc.current_spec() == a0.current_spec(),
                o.no_duplicates(),
                forall|k: int| 0 <= k < o.len() ==> mem.holds(#[trigger] o[k]),
                frames@.len() <= o.len(),
                forall|k: int| 0 <= k < frames@.len() ==> #[trigger] frames@[k]@ == o[k],
                forall|k: int| 0 <= k < frames@.len() ==> alloc.allocated(#[trigger] o[k]),
                forall|k: int|
                    frames@.len() <= k < o.len() ==> !alloc.allocated(#[trigger] o[k]) && mem.frame_zero(
                        o[k],
                    ),
                alloc.live_count() == a0.live_count() - (o.len() - frames@.len()),
                forall|q: u64|
                    !o.contains(q) ==> (#[trigger] alloc.allocated(q) <==> a0.allocated(q)),
                forall|q: u64, i: int|
                    !o.contains(q) && mem.holds(q) && 0 <= i < 512 ==> #[trigger] mem.entry(q, i)
                        == m0.entry(q, i),
            decreases frames@.len(),
        {
            let n = frames.len() - 1;
            let f = frames.pop().unwrap();
            let ghost p = f@;
            let ghost a1 = *alloc;
            let ghost m1 = *mem;
            proof {
                assert(p == o[n as int]);
                assert(a1.allocated(p));
            }
            let r = f.release(alloc, mem);
            proof {
                assert(r is Ok);
                assert(alloc.recycled_spec() =~= a1.recycled_spec().push(p));
                assert forall|q: u64| q != p implies (#[trigger] alloc.allocated(q) <==> a1.allocated(q)) by {
                    if alloc.recycled_spec().contains(q) {
                        let i = choose|i: int| 0 <= i < alloc.recycled_spec().len() && alloc.recycled_spec()[i] == q;
                        if i < a1.recycled_spec().len() {
                            assert(a1.recycled_spec()[i] == q);
                        }
                    }
                    if a1.recycled_spec().contains(q) {
                        let i = choose|i: int| 0 <= i < a1.recycled_spec().len() && a1.recycled_spec()[i] == q;
                        assert(alloc.recycled_spec()[i] == q);
                    }
                }
                assert(alloc.recycled_spec()[a1.recycled_spec().len() as int] == p);
                assert(!alloc.allocated(p));
                assert forall|k: int| 0 <= k < frames@.len() implies alloc.allocated(#[trigger] o[k]) by {
                    assert(o[k] != o[n as int]);
                }
                assert forall|k: int|
                    frames@.len() <= k < o.len() implies !alloc.allocated(#[trigger] o[k]) && mem.frame_zero(
                        o[k],
                    ) by {
                    if k != n {
                        assert(o[k] != p);
                        assert(m1.frame_zero(o[k]));
                        assert forall|i: int| 0 <= i < 512 implies #[trigger] mem.entry(o[k], i) == 0 by {
                            assert(m1.entry(o[k], i) == 0);
                        }
                    }
                }
                assert forall|q: u64| !o.contains(q) implies (#[trigger] alloc.allocated(q) <==> a0.allocated(q)) by {
                    assert(o[n as int] == p);
                    assert(q != p);
                }
                assert forall|q: u64, i: int|
                    !o.contains(q) && mem.holds(q) && 0 <= i < 512 implies #[trigger] mem.entry(q, i)
                    == m0.entry(q, i) by {
                    assert(o[n as int] == p);
                    assert(m1.entry(q, i) == m0.entry(q, i));
                }
            }
        }
    }
}

/// How creating the missing upper-level nodes for `vpn` takes the table from
/// state 0 to state 1: the frames it owned stay first in its list, followed by
/// one frame per missing node, none of which was handed out before; each
/// newly filled upper entry points at its child with the valid flag alone,
/// and a root entry that was valid is left as it was.
pub open spec fn new_nodes_post(
    t0: PageTable,
    a0: FrameAllocator,
    m0: PhysMemory,
    t1: PageTable,
    m1: PhysMemory,
    vpn: nat,
) -> bool {
    let root = t0.root_spec();
    let i0 = level_index(vpn, 0) as int;
    let i1 = level_index(vpn, 1) as int;
    let missing = missing_nodes(&m0, root, vpn);
    &&& t1.owned().len() == t0.owned().len() + missing
    &&& t1.owned().subrange(0, t0.owned().len() as int) == t0.owned()
    &&& forall|k: int|
        t0.owned().len() <= k < t1.owned().len() ==> !a0.allocated(#[trigger] t1.owned()[k])
    &&& missing == 2 ==> child_pointer(m1.entry(root, i0))
    &&& missing >= 1 ==> child_pointer(m1.entry(bits_ppn(m1.entry(root, i0)), i1))
    &&& missing <= 1 ==> m1.entry(root, i0) == m0.entry(root, i0)
}

/// What `map(vpn, ppn, flags)` does from state 0 to state 1, returning `r`.
pub open spec fn map_post(
    t0: PageTable,
    a0: FrameAllocator,
    m0: PhysMemory,
    t1: PageTable,
    a1: FrameAllocator,
    m1: PhysMemory,
    vpn: nat,
    ppn: u64,
    flags: u8,
    r: Result<(), MmError>,
) -> bool {
    &&& t1.wf(&a1, &m1)
    &&& t1.root_spec() == t0.root_spec()
    &&& if t0.mapping_spec(&m0, vpn) is Some {
        r == Err::<(), MmError>(MmError::MappingConflict) && t1 == t0 && a1 == a0 && m1 == m0
    } else if missing_nodes(&m0, t0.root_spec(), vpn) > a0.available() {
        r == Err::<(), MmError>(MmError::OutOfMemory) && t1 == t0 && a1 == a0 && m1 == m0
    } else {
        &&& r is Ok
        &&& a1.start_spec() == a0.start_spec()
        &&& a1.end_spec() == a0.end_spec()
        &&& a1.available() == a0.available() - missing_nodes(&m0, t0.root_spec(), vpn)
        &&& new_nodes_post(t0, a0, m0, t1, m1, vpn)
        &&& missing_nodes(&m0, t0.root_spec(), vpn) == 0 ==> m1.same_except_slot(
            &m0,
            leaf_node(&m0, t0.root_spec(), vpn),
            level_index(vpn, 2) as int,
        )
        &&& t1.mapping_spec(&m1, vpn) == Some(bits_of(ppn, flags | PTE_V))
        &&& missing_nodes(&m1, t1.root_spec(), vpn) == 0
        &&& forall|v: nat| !same_path(v, vpn) ==> #[trigger] t1.mapping_spec(&m1, v) == t0.mapping_spec(&m0, v)
    }
}

/// What `unmap(vpn)` does from state 0 to state 1, returning `r`.
pub open spec fn unmap_post(
    t0: PageTable,
    a: FrameAllocator,
    m0: PhysMemory,
    t1: PageTable,
    m1: PhysMemory,
    vpn: nat,
    r: Result<(), MmError>,
) -> bool {
    &&& t1 == t0
    &&& t1.wf(&a, &m1)
    &&& if t0.mapping_spec(&m0, vpn) is None {
        r == Err::<(), MmError>(MmError::UnmappingInvalid) && m1 == m0
    } else {
        &&& r is Ok
        &&& t1.lookup_spec(&m1, vpn) == Some(0u64)
        &&& t1.mapping_spec(&m1, vpn) is None
        &&& missing_nodes(&m1, t1.root_spec(), vpn) == 0
        &&& m1.same_except_slot(&m0, leaf_node(&m0, t0.root_spec(), vpn), level_index(vpn, 2) as int)
        &&& forall|v: nat| !same_path(v, vpn) ==> #[trigger] t1.lookup_spec(&m1, v) == t0.lookup_spec(&m0, v)
        &&& forall|v: nat| !same_path(v, vpn) ==> #[trigger] t1.mapping_spec(&m1, v) == t0.mapping_spec(&m0, v)
    }
}

/// A fresh table maps nothing: every page's lookup stops before the leaf.
pub proof fn lemma_empty_table_unmapped(t: PageTable, mem: PhysMemory, vpn: nat)
    requires
        mem.frame_zero(t.root_spec()),
    ensures
        t.lookup_spec(&mem, vpn) is None,
        t.mapping_spec(&mem, vpn) is None,
{
    lemma_zero_invalid();
    assert(mem.entry(t.root_spec(), level_index(vpn, 0) as int) == 0);
}


/// After a successful `map(vpn, ppn, flags)` the lookup of `vpn` gives an
/// entry with that frame and those flags (plus the valid bit), and every
/// address in the page translates to the frame's base plus its page offset.
pub proof fn lemma_map_then_translate(
    t0: PageTable,
    a0: FrameAllocator,
    m0: PhysMemory,
    t1: PageTable,
    a1: FrameAllocator,
    m1: PhysMemory,
    vpn: nat,
    ppn: u64,
    flags: u8,
    va: u64,
)
    requires
        ppn < PPN_LIMIT,
        map_post(t0, a0, m0, t1, a1, m1, vpn, ppn, flags, Ok(())),
        va / 4096 == vpn,
    ensures
        t1.mapping_spec(&m1, vpn) matches Some(b) && bits_ppn(b) == ppn && bits_flags(b) == flags
            | PTE_V,
        translation(&m1, t1.root_spec(), va) == Some(ppn * 4096 + va % 4096),
{
    lemma_bits_of(ppn, flags | PTE_V);
}

/// After a page is mapped, and until it is unmapped, it counts as mapped: `map`
/// may not be called on it again, and `try_map` fails with `MappingConflict`.
pub proof fn lemma_map_twice_conflicts(
    t0: PageTable,
    a0: FrameAllocator,
    m0: PhysMemory,
    t1: PageTable,
    a1: FrameAllocator,
    m1: PhysMemory,
    t2: PageTable,
    a2: FrameAllocator,
    m2: PhysMemory,
    vpn: nat,
    ppn: u64,
    flags: u8,
    ppn2: u64,
    flags2: u8,
    r2: Result<(), MmError>,
)
    requires
        map_post(t0, a0, m0, t1, a1, m1, vpn, ppn, flags, Ok(())),
        map_post(t1, a1, m1, t2, a2, m2, vpn, ppn2, flags2, r2),
    ensures
        t1.mapping_spec(&m1, vpn) is Some,
        r2 == Err::<(), MmError>(MmError::MappingConflict),
{
}

/// After a page is unmapped it counts as unmapped: `unmap` may not be called on
/// it again, and `try_unmap` fails with `UnmappingInvalid`.
pub proof fn lemma_unmap_twice_fails(
    t0: PageTable,
    a: FrameAllocator,
    m0: PhysMemory,
    t1: PageTable,
    m1: PhysMemory,
    t2: PageTable,
    m2: PhysMemory,
    vpn: nat,
    r2: Result<(), MmError>,
)
    requires
        unmap_post(t0, a, m0, t1, m1, vpn, Ok(())),
        unmap_post(t1, a, m1, t2, m2, vpn, r2),
    ensures
        t1.mapping_spec(&m1, vpn) is None,
        r2 == Err::<(), MmError>(MmError::UnmappingInvalid),
{
}

/// Map, unmap, map of one page is allowed and succeeds at every step: after the
/// map the page is mapped, and after the unmap it is unmapped with its whole
/// walk present, so the second map needs no frame.
pub proof fn lemma_map_unmap_map(
    t0: PageTable,
    a0: FrameAllocator,
    m0: PhysMemory,
    t1: PageTable,
    a1: FrameAllocator,
    m1: PhysMemory,
    t2: PageTable,
    m2: PhysMemory,
    t3: PageTable,
    a3: FrameAllocator,
    m3: PhysMemory,
    vpn: nat,
    ppn: u64,
    flags: u8,
    r2: Result<(), MmError>,
    ppn3: u64,
    flags3: u8,
    r3: Result<(), MmError>,
)
    requires
        map_post(t0, a0, m0, t1, a1, m1, vpn, ppn, flags, Ok(())),
        unmap_post(t1, a1, m1, t2, m2, vpn, r2),
        map_post(t2, a1, m2, t3, a3, m3, vpn, ppn3, flags3, r3),
    ensures
        t1.mapping_spec(&m1, vpn) is Some,
        r2 is Ok,
        t2.mapping_spec(&m2, vpn) is None,
        missing_nodes(&m2, t2.root_spec(), vpn) == 0,
        r3 is Ok,
{
}

} // verus!
