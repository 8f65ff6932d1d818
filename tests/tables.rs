use sv39_mm::addr::{PhysAddr, PhysPageNum, VirtAddr, VirtPageNum};
use sv39_mm::error::MmError;
use sv39_mm::frame::FrameAllocator;
use sv39_mm::memory::PhysMemory;
use sv39_mm::pte::{PTE_R, PTE_U, PTE_V, PTE_W};
use sv39_mm::table::{Mode, PageTable};

fn setup(frames: u64) -> (FrameAllocator, PhysMemory) {
    let mut mem = PhysMemory::new(100, frames);
    let alloc = FrameAllocator::new(PhysPageNum(100), PhysPageNum(100 + frames), &mut mem);
    (alloc, mem)
}

#[test]
fn empty_table_has_no_mapping() {
    let (mut alloc, mut mem) = setup(4);
    let t = PageTable::try_new(&mut alloc, &mut mem).unwrap();
    for v in [0u64, 1, 5, 511, 512, 1 << 18, (1 << 27) - 1] {
        assert!(t.translate(VirtPageNum(v), &mem).is_none());
        assert_eq!(t.translate_va_to_pa(VirtAddr(v << 12), &mem), Err(MmError::TranslationMiss));
    }
}

#[test]
fn map_then_translate_address() {
    let (mut alloc, mut mem) = setup(4);
    let mut t = PageTable::try_new(&mut alloc, &mut mem).unwrap();
    assert_eq!(t.try_map(VirtPageNum(5), PhysPageNum(10), PTE_R | PTE_W, &mut alloc, &mut mem), Ok(()));
    assert_eq!(
        t.translate_va_to_pa(VirtAddr((5 << 12) + 0x20), &mem),
        Ok(PhysAddr((10 << 12) + 0x20))
    );
    let e = t.translate(VirtPageNum(5), &mem).unwrap();
    assert_eq!(e.ppn(), PhysPageNum(10));
    assert_eq!(e.flags(), PTE_R | PTE_W | PTE_V);
    assert_eq!(t.translate_va_to_pa(VirtAddr(6 << 12), &mem), Err(MmError::TranslationMiss));
}

#[test]
fn map_uses_two_new_nodes_then_none() {
    let (mut alloc, mut mem) = setup(4);
    let mut t = PageTable::try_new(&mut alloc, &mut mem).unwrap();
    assert_eq!(alloc.available_frames(), 3);
    t.try_map(VirtPageNum(5), PhysPageNum(10), PTE_R, &mut alloc, &mut mem).unwrap();
    assert_eq!(alloc.available_frames(), 1);
    t.try_map(VirtPageNum(6), PhysPageNum(11), PTE_R, &mut alloc, &mut mem).unwrap();
    assert_eq!(alloc.available_frames(), 1);
    assert_eq!(t.translate_va_to_pa(VirtAddr(5 << 12), &mem), Ok(PhysAddr(10 << 12)));
    assert_eq!(t.translate_va_to_pa(VirtAddr((6 << 12) + 1), &mem), Ok(PhysAddr((11 << 12) + 1)));
}

#[test]
fn map_reports_out_of_memory_without_change() {
    let (mut alloc, mut mem) = setup(2);
    let mut t = PageTable::try_new(&mut alloc, &mut mem).unwrap();
    assert_eq!(
        t.try_map(VirtPageNum(5), PhysPageNum(10), PTE_R, &mut alloc, &mut mem),
        Err(MmError::OutOfMemory)
    );
    assert_eq!(alloc.available_frames(), 1);
    assert!(t.translate(VirtPageNum(5), &mem).is_none());
}

#[test]
fn new_table_without_frames_is_out_of_memory() {
    let (mut alloc, mut mem) = setup(1);
    let _t = PageTable::try_new(&mut alloc, &mut mem).unwrap();
    assert!(matches!(PageTable::try_new(&mut alloc, &mut mem), Err(MmError::OutOfMemory)));
}

#[test]
fn map_twice_conflicts() {
    let (mut alloc, mut mem) = setup(4);
    let mut t = PageTable::try_new(&mut alloc, &mut mem).unwrap();
    t.try_map(VirtPageNum(5), PhysPageNum(10), PTE_R, &mut alloc, &mut mem).unwrap();
    assert_eq!(
        t.try_map(VirtPageNum(5), PhysPageNum(11), PTE_W, &mut alloc, &mut mem),
        Err(MmError::MappingConflict)
    );
    assert_eq!(t.translate(VirtPageNum(5), &mem).unwrap().ppn(), PhysPageNum(10));
}

#[test]
fn unmap_twice_fails() {
    let (mut alloc, mut mem) = setup(4);
    let mut t = PageTable::try_new(&mut alloc, &mut mem).unwrap();
    t.try_map(VirtPageNum(5), PhysPageNum(10), PTE_R, &mut alloc, &mut mem).unwrap();
    assert_eq!(t.try_unmap(VirtPageNum(5), &alloc, &mut mem), Ok(()));
    assert_eq!(t.try_unmap(VirtPageNum(5), &alloc, &mut mem), Err(MmError::UnmappingInvalid));
    assert_eq!(t.try_unmap(VirtPageNum(9), &alloc, &mut mem), Err(MmError::UnmappingInvalid));
}

#[test]
fn map_unmap_map_succeeds() {
    let (mut alloc, mut mem) = setup(4);
    let mut t = PageTable::try_new(&mut alloc, &mut mem).unwrap();
    assert_eq!(t.try_map(VirtPageNum(5), PhysPageNum(10), PTE_R, &mut alloc, &mut mem), Ok(()));
    assert_eq!(t.try_unmap(VirtPageNum(5), &alloc, &mut mem), Ok(()));
    assert_eq!(t.translate_va_to_pa(VirtAddr(5 << 12), &mem), Err(MmError::TranslationMiss));
    assert_eq!(t.try_map(VirtPageNum(5), PhysPageNum(12), PTE_R | PTE_U, &mut alloc, &mut mem), Ok(()));
    assert_eq!(t.translate_va_to_pa(VirtAddr(5 << 12), &mem), Ok(PhysAddr(12 << 12)));
}

#[test]
fn satp_packs_mode_and_root() {
    let (mut alloc, mut mem) = setup(4);
    let t = PageTable::try_new(&mut alloc, &mut mem).unwrap();
    assert_eq!(t.root(), PhysPageNum(100));
    assert_eq!(t.satp_bits(Mode::Sv39), (8u64 << 60) | 100);
    assert_eq!(t.satp_bits(Mode::Bare), 100);
    assert_eq!(t.satp_bits(Mode::Sv48), (9u64 << 60) | 100);
    let view = PageTable::from_satp(t.satp_bits(Mode::Sv39));
    assert_eq!(view.root(), PhysPageNum(100));
}

#[test]
fn view_sees_owner_mappings() {
    let (mut alloc, mut mem) = setup(4);
    let mut t = PageTable::try_new(&mut alloc, &mut mem).unwrap();
    t.try_map(VirtPageNum(0x7_ffff), PhysPageNum(42), PTE_R, &mut alloc, &mut mem).unwrap();
    let view = PageTable::from_satp(t.satp_bits(Mode::Sv39));
    assert_eq!(
        view.translate_va_to_pa(VirtAddr((0x7_ffff << 12) + 9), &mem),
        Ok(PhysAddr((42 << 12) + 9))
    );
}

#[test]
fn view_of_root_outside_memory_misses() {
    let (_alloc, mem) = setup(2);
    let view = PageTable::from_satp((8u64 << 60) | 5);
    assert!(view.translate(VirtPageNum(0), &mem).is_none());
}

#[test]
fn other_mappings_survive_map_and_unmap() {
    let (mut alloc, mut mem) = setup(8);
    let mut t = PageTable::try_new(&mut alloc, &mut mem).unwrap();
    t.try_map(VirtPageNum(5), PhysPageNum(10), PTE_R, &mut alloc, &mut mem).unwrap();
    t.try_map(VirtPageNum(1 << 18), PhysPageNum(20), PTE_W, &mut alloc, &mut mem).unwrap();
    t.try_map(VirtPageNum(6), PhysPageNum(11), PTE_R, &mut alloc, &mut mem).unwrap();
    t.try_unmap(VirtPageNum(6), &alloc, &mut mem).unwrap();
    assert_eq!(t.translate_va_to_pa(VirtAddr(5 << 12), &mem), Ok(PhysAddr(10 << 12)));
    assert_eq!(t.translate_va_to_pa(VirtAddr(1 << 30), &mem), Ok(PhysAddr(20 << 12)));
    assert_eq!(t.translate_va_to_pa(VirtAddr(6 << 12), &mem), Err(MmError::TranslationMiss));
}

#[test]
fn release_returns_every_owned_frame() {
    let (mut alloc, mut mem) = setup(8);
    let mut t = PageTable::try_new(&mut alloc, &mut mem).unwrap();
    t.try_map(VirtPageNum(5), PhysPageNum(10), PTE_R, &mut alloc, &mut mem).unwrap();
    t.try_map(VirtPageNum(1 << 18), PhysPageNum(20), PTE_W, &mut alloc, &mut mem).unwrap();
    assert_eq!(alloc.available_frames(), 3);
    let root = t.root().0;
    t.release(&mut alloc, &mut mem);
    assert_eq!(alloc.available_frames(), 8);
    for i in 0..512 {
        assert_eq!(mem.read(root, i), 0);
    }
}

#[test]
fn releasing_a_view_frees_nothing() {
    let (mut alloc, mut mem) = setup(4);
    let t = PageTable::try_new(&mut alloc, &mut mem).unwrap();
    let view = PageTable::from_satp(t.satp_bits(Mode::Sv39));
    view.release(&mut alloc, &mut mem);
    assert_eq!(alloc.available_frames(), 3);
    assert_eq!(alloc.try_dealloc(PhysPageNum(100)), Ok(()));
}

#[test]
fn fatal_free_forms_map_and_unmap() {
    let (mut alloc, mut mem) = setup(4);
    let mut t = PageTable::new(&mut alloc, &mut mem);
    t.map(VirtPageNum(5), PhysPageNum(10), PTE_R | PTE_W, &mut alloc, &mut mem);
    assert_eq!(
        t.translate_va_to_pa(VirtAddr((5 << 12) + 0x20), &mem),
        Ok(PhysAddr((10 << 12) + 0x20))
    );
    t.unmap(VirtPageNum(5), &alloc, &mut mem);
    assert_eq!(t.translate(VirtPageNum(5), &mem).unwrap().bits, 0);
    t.map(VirtPageNum(5), PhysPageNum(11), PTE_R, &mut alloc, &mut mem);
    assert_eq!(t.translate(VirtPageNum(5), &mem).unwrap().ppn(), PhysPageNum(11));
    assert_eq!(alloc.available_frames(), 1);
}
