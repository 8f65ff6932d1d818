use vstd::prelude::*;
use crate::addr::PhysPageNum;

verus! {

/// Flag bit: the entry is valid.
pub const PTE_V: u8 = 1;
/// Flag bit: the page may be read.
pub const PTE_R: u8 = 2;
/// Flag bit: the page may be written.
pub const PTE_W: u8 = 4;
/// Flag bit: the page may be executed.
pub const PTE_X: u8 = 8;
/// Flag bit: the page is reachable from user mode.
pub const PTE_U: u8 = 16;
/// Flag bit: the mapping is global.
pub const PTE_G: u8 = 32;
/// Flag bit: the page has been accessed.
pub const PTE_A: u8 = 64;
/// Flag bit: the page has been written.
pub const PTE_D: u8 = 128;

/// Mask of the 44-bit page-number field, once shifted down.
pub const PPN_MASK: u64 = 0xfff_ffff_ffff;

/// One more than the largest page number an entry can hold.
pub const PPN_LIMIT: u64 = 0x1000_0000_0000;

/// The page number held in the raw entry `bits`.
pub open spec fn bits_ppn(bits: u64) -> u64 {
    (bits >> 10u64) & 0xfff_ffff_ffffu64
}

/// The eight flag bits of the raw entry `bits`.
pub open spec fn bits_flags(bits: u64) -> u8 {
    (bits & 0xffu64) as u8
}

/// Whether the raw entry `bits` has its valid bit set.
pub open spec fn bits_valid(bits: u64) -> bool {
    bits & 1u64 != 0
}

/// The raw entry holding page `ppn` with `flags`.
pub open spec fn bits_of(ppn: u64, flags: u8) -> u64 {
    (ppn << 10u64) | (flags as u64)
}

/// One 64-bit slot of a page-table node: `[page number:44][reserved:2][D A G U X W R V]`.
#[derive(Clone, Copy, Debug, PartialEq, Eq, Structural)]
pub struct PageTableEntry {
    pub bits: u64,
}

pub proof fn lemma_bits_of(ppn: u64, flags: u8)
    requires
        ppn < 0x1000_0000_0000u64,
    ensures
        bits_ppn(bits_of(ppn, flags)) == ppn,
        bits_flags(bits_of(ppn, flags)) == flags,
        bits_valid(bits_of(ppn, flags)) == (flags & 1u8 != 0),
{
    let f = flags as u64;
    assert(f < 256u64);
    assert((((ppn << 10u64) | f) >> 10u64) & 0xfff_ffff_ffffu64 == ppn) by (bit_vector)
        requires
            ppn < 0x1000_0000_0000u64,
            f < 256u64,
    ;
    assert(((ppn << 10u64) | f) & 0xffu64 == f) by (bit_vector)
        requires
            f < 256u64,
    ;
    assert((((ppn << 10u64) | f) & 1u64 != 0) == (f & 1u64 != 0)) by (bit_vector);
    assert((f & 1u64 != 0) == (flags & 1u8 != 0)) by (bit_vector)
        requires
            f == flags as u64,
    ;
}

pub proof fn lemma_zero_invalid()
    ensures
        !bits_valid(0u64),
{
    assert(0u64 & 1u64 == 0u64) by (bit_vector);
}

impl PageTableEntry {
    pub open spec fn ppn_spec(self) -> u64 {
        bits_ppn(self.bits)
    }

    pub open spec fn flags_spec(self) -> u8 {
        bits_flags(self.bits)
    }

    pub open spec fn valid_spec(self) -> bool {
        bits_valid(self.bits)
    }

    /// An entry for page `ppn` with exactly the given flag bits.
    pub fn new(ppn: PhysPageNum, flags: u8) -> (r: PageTableEntry)
        requires
            ppn.0 < PPN_LIMIT,
        ensures
            r.bits == bits_of(ppn.0, flags),
            r.ppn_spec() == ppn.0,
            r.flags_spec() == flags,
            r.valid_spec() == (flags & 1u8 != 0),
    {
        proof {
            lemma_bits_of(ppn.0, flags);
        }
        PageTableEntry { bits: (ppn.0 << 10u64) | (flags as u64) }
    }

    /// The entry with no page and no flags.
    pub fn empty() -> (r: PageTableEntry)
        ensures
            r.bits == 0,
            !r.valid_spec(),
    {
        proof {
            lemma_zero_invalid();
        }
        PageTableEntry { bits: 0 }
    }

    pub fn ppn(&self) -> (r: PhysPageNum)
        ensures
            r.0 == self.ppn_spec(),
            r.0 < PPN_LIMIT,
    {
        let b = self.bits;
        assert(((b >> 10u64) & 0xfff_ffff_ffffu64) < 0x1000_0000_0000u64) by (bit_vector);
        PhysPageNum((self.bits >> 10u64) & PPN_MASK)
    }

    pub fn flags(&self) -> (r: u8)
        ensures
            r == self.flags_spec(),
    {
        (self.bits & 0xffu64) as u8
    }

    pub fn is_valid(&self) -> (r: bool)
        ensures
            r == self.valid_spec(),
    {
        self.bits & 1u64 != 0
    }

    pub fn readable(&self) -> (r: bool)
        ensures
            r == (self.bits & 2u64 != 0),
    {
        self.bits & 2u64 != 0
    }

    pub fn writable(&self) -> (r: bool)
        ensures
            r == (self.bits & 4u64 != 0),
    {
        self.bits & 4u64 != 0
    }

    pub fn executable(&self) -> (r: bool)
        ensures
            r == (self.bits & 8u64 != 0),
    {
        self.bits & 8u64 != 0
    }
}

} // verus!
