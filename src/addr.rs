use vstd::prelude::*;

verus! {

/// Bytes in one page.
pub const PAGE_SIZE: u64 = 4096;

/// Largest page number whose base address fits in 64 bits.
pub const MAX_PAGE_NUM: u64 = 0xf_ffff_ffff_ffff;

/// A byte address in physical memory.
#[derive(Clone, Copy, Debug, PartialEq, Eq, Structural)]
pub struct PhysAddr(pub u64);

/// A byte address in a virtual address space.
#[derive(Clone, Copy, Debug, PartialEq, Eq, Structural)]
pub struct VirtAddr(pub u64);

/// A physical page number: a physical address divided by the page size.
#[derive(Clone, Copy, Debug, PartialEq, Eq, Structural)]
pub struct PhysPageNum(pub u64);

/// A virtual page number: a virtual address divided by the page size.
#[derive(Clone, Copy, Debug, PartialEq, Eq, Structural)]
pub struct VirtPageNum(pub u64);

/// The index used at `level` (0 is the root) of an Sv39 walk for page `vpn`.
pub open spec fn level_index(vpn: nat, level: nat) -> nat {
    if level == 0 {
        (vpn / 0x40000) % 512
    } else if level == 1 {
        (vpn / 0x200) % 512
    } else {
        vpn % 512
    }
}

impl PhysAddr {
    pub fn value(self) -> (r: u64)
        ensures
            r == self.0,
    {
        self.0
    }

    /// The page holding this address.
    pub fn floor(self) -> (r: PhysPageNum)
        ensures
            r.0 == self.0 / 4096,
    {
        PhysPageNum(self.0 / PAGE_SIZE)
    }

    /// The first page that starts at or after this address.
    pub fn ceil(self) -> (r: PhysPageNum)
        ensures
            r.0 == (self.0 + 4095) / 4096,
    {
        if self.0 % PAGE_SIZE == 0 {
            PhysPageNum(self.0 / PAGE_SIZE)
        } else {
            PhysPageNum(self.0 / PAGE_SIZE + 1)
        }
    }

    /// The offset of this address inside its page.
    pub fn page_offset(self) -> (r: u64)
        ensures
            r == self.0 % 4096,
            r < 4096,
    {
        self.0 % PAGE_SIZE
    }

    pub fn aligned(self) -> (r: bool)
        ensures
            r == (self.0 % 4096 == 0),
    {
        self.0 % PAGE_SIZE == 0
    }
}

impl VirtAddr {
    pub fn value(self) -> (r: u64)
        ensures
            r == self.0,
    {
        self.0
    }

    /// The page holding this address.
    pub fn floor(self) -> (r: VirtPageNum)
        ensures
            r.0 == self.0 / 4096,
    {
        VirtPageNum(self.0 / PAGE_SIZE)
    }

    /// The first page that starts at or after this address.
    pub fn ceil(self) -> (r: VirtPageNum)
        ensures
            r.0 == (self.0 + 4095) / 4096,
    {
        if self.0 % PAGE_SIZE == 0 {
            VirtPageNum(self.0 / PAGE_SIZE)
        } else {
            VirtPageNum(self.0 / PAGE_SIZE + 1)
        }
    }

    /// The offset of this address inside its page.
    pub fn page_offset(self) -> (r: u64)
        ensures
            r == self.0 % 4096,
            r < 4096,
    {
        self.0 % PAGE_SIZE
    }

    pub fn aligned(self) -> (r: bool)
        ensures
            r == (self.0 % 4096 == 0),
    {
        self.0 % PAGE_SIZE == 0
    }
}

impl PhysPageNum {
    pub fn value(self) -> (r: u64)
        ensures
            r == self.0,
    {
        self.0
    }

    /// The address of the first byte of this page.
    pub fn base_addr(self) -> (r: PhysAddr)
        requires
            self.0 <= MAX_PAGE_NUM,
        ensures
            r.0 == self.0 * 4096,
    {
        PhysAddr(self.0 * PAGE_SIZE)
    }
}

impl VirtPageNum {
    pub fn value(self) -> (r: u64)
        ensures
            r == self.0,
    {
        self.0
    }

    /// The address of the first byte of this page.
    pub fn base_addr(self) -> (r: VirtAddr)
        requires
            self.0 <= MAX_PAGE_NUM,
        ensures
            r.0 == self.0 * 4096,
    {
        VirtAddr(self.0 * PAGE_SIZE)
    }

    /// The three Sv39 walk indices of this page, root level first.
    pub fn indexes(self) -> (r: [usize; 3])
        ensures
            r[0] as nat == level_index(self.0 as nat, 0),
            r[1] as nat == level_index(self.0 as nat, 1),
            r[2] as nat == level_index(self.0 as nat, 2),
            r[0] < 512 && r[1] < 512 && r[2] < 512,
    {
        let v = self.0;
        [((v / 0x40000) % 512) as usize, ((v / 0x200) % 512) as usize, (v % 512) as usize]
    }
}

/// A page-aligned physical address turned into its page number and back is
/// the same address.
pub proof fn lemma_phys_page_round_trip(a: PhysAddr)
    requires
        a.0 % 4096 == 0,
    ensures
        (a.0 / 4096) <= MAX_PAGE_NUM,
        (a.0 / 4096) * 4096 == a.0,
{
}

/// A page-aligned virtual address turned into its page number and back is
/// the same address.
pub proof fn lemma_virt_page_round_trip(a: VirtAddr)
    requires
        a.0 % 4096 == 0,
    ensures
        (a.0 / 4096) <= MAX_PAGE_NUM,
        (a.0 / 4096) * 4096 == a.0,
{
}

} // verus!
