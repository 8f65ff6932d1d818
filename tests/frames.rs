use sv39_mm::addr::PhysPageNum;
use sv39_mm::error::MmError;
use sv39_mm::frame::{frame_alloc, frame_dealloc, try_frame_alloc, FrameAllocator};
use sv39_mm::memory::PhysMemory;

fn setup(start: u64, end: u64) -> (FrameAllocator, PhysMemory) {
    let mut mem = PhysMemory::new(start, end - start);
    let alloc = FrameAllocator::new(PhysPageNum(start), PhysPageNum(end), &mut mem);
    (alloc, mem)
}

#[test]
fn allocates_in_order_then_reuses_freed_frame() {
    let (mut alloc, _mem) = setup(100, 103);
    let a = alloc.allocate().unwrap();
    let b = alloc.allocate().unwrap();
    let c = alloc.allocate().unwrap();
    assert_eq!(a.ppn(), PhysPageNum(100));
    assert_eq!(b.ppn(), PhysPageNum(101));
    assert_eq!(c.ppn(), PhysPageNum(102));
    assert!(alloc.allocate().is_none());
    assert_eq!(alloc.try_dealloc(PhysPageNum(101)), Ok(()));
    assert_eq!(alloc.allocate().unwrap().ppn(), PhysPageNum(101));
}

#[test]
fn frame_alloc_reports_out_of_memory() {
    let (mut alloc, mut mem) = setup(100, 103);
    for _ in 0..3 {
        assert!(try_frame_alloc(&mut alloc, &mut mem).is_ok());
    }
    assert_eq!(try_frame_alloc(&mut alloc, &mut mem).err(), Some(MmError::OutOfMemory));
}

#[test]
fn free_of_unallocated_frame_fails() {
    let (mut alloc, _mem) = setup(100, 103);
    assert_eq!(alloc.try_dealloc(PhysPageNum(100)), Err(MmError::InvalidFree));
    let _a = alloc.allocate().unwrap();
    assert_eq!(alloc.try_dealloc(PhysPageNum(101)), Err(MmError::InvalidFree));
    assert_eq!(alloc.try_dealloc(PhysPageNum(99)), Err(MmError::InvalidFree));
    assert_eq!(alloc.try_dealloc(PhysPageNum(200)), Err(MmError::InvalidFree));
}

#[test]
fn double_free_fails() {
    let (mut alloc, _mem) = setup(100, 103);
    let _a = alloc.allocate().unwrap();
    assert_eq!(alloc.try_dealloc(PhysPageNum(100)), Ok(()));
    assert_eq!(alloc.try_dealloc(PhysPageNum(100)), Err(MmError::DoubleFree));
}

#[test]
fn live_frames_never_exceed_capacity() {
    let (mut alloc, _mem) = setup(10, 14);
    let mut live = 0;
    for round in 0..6u64 {
        while alloc.allocate().is_some() {
            live += 1;
        }
        assert!(live <= 4);
        assert_eq!(alloc.available_frames(), 0);
        let p = 10 + (round % 4);
        assert_eq!(alloc.try_dealloc(PhysPageNum(p)), Ok(()));
        live -= 1;
        assert_eq!(alloc.available_frames(), 1);
    }
}

#[test]
fn recycled_frames_come_back_last_freed_first() {
    let (mut alloc, _mem) = setup(0, 4);
    for _ in 0..4 {
        alloc.allocate().unwrap();
    }
    assert_eq!(alloc.try_dealloc(PhysPageNum(1)), Ok(()));
    assert_eq!(alloc.try_dealloc(PhysPageNum(3)), Ok(()));
    assert_eq!(alloc.allocate().unwrap().ppn(), PhysPageNum(3));
    assert_eq!(alloc.allocate().unwrap().ppn(), PhysPageNum(1));
    assert!(alloc.allocate().is_none());
}

#[test]
fn release_zeroes_and_frees() {
    let (mut alloc, mut mem) = setup(20, 22);
    let f = frame_alloc(&mut alloc, &mut mem);
    let p = f.ppn().0;
    mem.write(p, 7, 0xdead_beef);
    assert_eq!(f.release(&mut alloc, &mut mem), Ok(()));
    assert_eq!(mem.read(p, 7), 0);
    assert_eq!(alloc.allocate().unwrap().ppn(), PhysPageNum(p));
}

#[test]
fn new_allocator_zeroes_its_frames() {
    let mut mem = PhysMemory::new(5, 3);
    mem.write(6, 100, 42);
    let _alloc = FrameAllocator::new(PhysPageNum(5), PhysPageNum(8), &mut mem);
    assert_eq!(mem.read(6, 100), 0);
}

#[test]
fn memory_reads_bytes_little_endian() {
    let mut mem = PhysMemory::new(1, 1);
    mem.write(1, 1, 0x0807_0605_0403_0201);
    assert_eq!(mem.read_byte(4096 + 8), 0x01);
    assert_eq!(mem.read_byte(4096 + 15), 0x08);
    assert!(mem.contains(1));
    assert!(!mem.contains(2));
}

#[test]
fn fatal_free_forms_allocate_and_free() {
    let (mut alloc, mut mem) = setup(100, 103);
    mem.write(100, 3, 9);
    let a = frame_alloc(&mut alloc, &mut mem);
    assert_eq!(a.ppn(), PhysPageNum(100));
    assert_eq!(mem.read(100, 3), 0);
    let b = frame_alloc(&mut alloc, &mut mem);
    assert_eq!(b.ppn(), PhysPageNum(101));
    frame_dealloc(&mut alloc, PhysPageNum(100));
    alloc.dealloc(PhysPageNum(101));
    assert_eq!(alloc.available_frames(), 3);
    assert_eq!(frame_alloc(&mut alloc, &mut mem).ppn(), PhysPageNum(101));
    assert_eq!(frame_alloc(&mut alloc, &mut mem).ppn(), PhysPageNum(100));
}
