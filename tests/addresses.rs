use sv39_mm::addr::{PhysAddr, PhysPageNum, VirtAddr, VirtPageNum};
use sv39_mm::pte::{PageTableEntry, PTE_R, PTE_V, PTE_W, PTE_X};

#[test]
fn aligned_address_round_trips_through_page_number() {
    for a in [0u64, 0x1000, 0x8020_0000, 0xffff_f000] {
        let pa = PhysAddr(a);
        assert!(pa.aligned());
        assert_eq!(pa.floor().base_addr(), pa);
        let va = VirtAddr(a);
        assert_eq!(va.floor().base_addr(), va);
    }
}

#[test]
fn floor_ceil_and_offset() {
    let a = PhysAddr(0x1234);
    assert_eq!(a.floor(), PhysPageNum(1));
    assert_eq!(a.ceil(), PhysPageNum(2));
    assert_eq!(a.page_offset(), 0x234);
    assert_eq!(PhysAddr(0x2000).ceil(), PhysPageNum(2));
    assert_eq!(VirtAddr(0x5020).floor(), VirtPageNum(5));
    assert_eq!(VirtAddr(0x5020).page_offset(), 0x20);
}

#[test]
fn virtual_page_indexes() {
    let vpn = VirtPageNum((3 << 18) | (7 << 9) | 11);
    assert_eq!(vpn.indexes(), [3, 7, 11]);
    assert_eq!(VirtPageNum(5).indexes(), [0, 0, 5]);
}

#[test]
fn entry_packs_page_number_and_flags() {
    let e = PageTableEntry::new(PhysPageNum(0x12345), PTE_V | PTE_R | PTE_W);
    assert_eq!(e.bits, (0x12345 << 10) | 7);
    assert_eq!(e.ppn(), PhysPageNum(0x12345));
    assert_eq!(e.flags(), 7);
    assert!(e.is_valid() && e.readable() && e.writable() && !e.executable());
    let x = PageTableEntry::new(PhysPageNum(1), PTE_X);
    assert!(!x.is_valid() && x.executable());
    assert!(!PageTableEntry::empty().is_valid());
}
