use sv39_mm::addr::{PhysAddr, PhysPageNum, VirtPageNum};
use sv39_mm::error::MmError;
use sv39_mm::frame::FrameAllocator;
use sv39_mm::memory::PhysMemory;
use sv39_mm::pte::{PTE_R, PTE_U, PTE_W};
use sv39_mm::table::{Mode, PageTable};
use sv39_mm::translate::{
    translated_byte_buffer, translated_bytes, translated_ref, translated_refmut, translated_str,
    try_translated_byte_buffer, try_translated_str, PageSlice,
};
use sv39_mm::trap::{get_trap_context, Privilege, TrapContext, TRAP_CONTEXT};

fn space() -> (FrameAllocator, PhysMemory, PageTable, u64) {
    let mut mem = PhysMemory::new(100, 12);
    let mut alloc = FrameAllocator::new(PhysPageNum(100), PhysPageNum(108), &mut mem);
    let mut t = PageTable::try_new(&mut alloc, &mut mem).unwrap();
    let f = PTE_R | PTE_W | PTE_U;
    t.try_map(VirtPageNum(5), PhysPageNum(108), f, &mut alloc, &mut mem).unwrap();
    t.try_map(VirtPageNum(6), PhysPageNum(110), f, &mut alloc, &mut mem).unwrap();
    let satp = t.satp_bits(Mode::Sv39);
    (alloc, mem, t, satp)
}

#[test]
fn byte_buffer_splits_at_page_boundary() {
    let (_alloc, mem, _t, satp) = space();
    let v = try_translated_byte_buffer(satp, (5 << 12) + 4000, 200, &mem).unwrap();
    assert_eq!(
        v,
        vec![
            PageSlice { ppn: PhysPageNum(108), start: 4000, end: 4096 },
            PageSlice { ppn: PhysPageNum(110), start: 0, end: 104 },
        ]
    );
    let total: u64 = v.iter().map(|s| s.len()).sum();
    assert_eq!(total, 200);
}

#[test]
fn byte_buffer_within_one_page_and_empty() {
    let (_alloc, mem, _t, satp) = space();
    let v = try_translated_byte_buffer(satp, (6 << 12) + 16, 32, &mem).unwrap();
    assert_eq!(v, vec![PageSlice { ppn: PhysPageNum(110), start: 16, end: 48 }]);
    assert!(try_translated_byte_buffer(satp, 5 << 12, 0, &mem).unwrap().is_empty());
    let whole = try_translated_byte_buffer(satp, 5 << 12, 8192, &mem).unwrap();
    assert_eq!(whole.len(), 2);
    assert_eq!(whole[0], PageSlice { ppn: PhysPageNum(108), start: 0, end: 4096 });
}

#[test]
fn byte_buffer_over_unmapped_page_misses() {
    let (_alloc, mem, _t, satp) = space();
    assert_eq!(
        try_translated_byte_buffer(satp, (6 << 12) + 4000, 200, &mem),
        Err(MmError::TranslationMiss)
    );
}

#[test]
fn words_round_trip_through_foreign_space() {
    let (_alloc, mut mem, _t, satp) = space();
    assert_eq!(translated_refmut(satp, (5 << 12) + 8, 0x1122_3344_5566_7788, &mut mem), Ok(()));
    assert_eq!(translated_ref(satp, (5 << 12) + 8, &mem), Ok(0x1122_3344_5566_7788));
    assert_eq!(mem.read(108, 1), 0x1122_3344_5566_7788);
    assert_eq!(translated_ref(satp, 7 << 12, &mem), Err(MmError::TranslationMiss));
    assert_eq!(translated_refmut(satp, 7 << 12, 1, &mut mem), Err(MmError::TranslationMiss));
}

#[test]
fn frame_outside_memory_is_a_miss() {
    let mut mem = PhysMemory::new(100, 4);
    let mut alloc = FrameAllocator::new(PhysPageNum(100), PhysPageNum(104), &mut mem);
    let mut t = PageTable::try_new(&mut alloc, &mut mem).unwrap();
    t.try_map(VirtPageNum(1), PhysPageNum(9000), PTE_R, &mut alloc, &mut mem).unwrap();
    let satp = t.satp_bits(Mode::Sv39);
    assert_eq!(translated_ref(satp, 1 << 12, &mem), Err(MmError::TranslationMiss));
    assert_eq!(translated_bytes(satp, 1 << 12, 1, &mem), Err(MmError::TranslationMiss));
}

#[test]
fn text_is_read_across_pages() {
    let (_alloc, mut mem, _t, satp) = space();
    let word = u64::from_le_bytes(*b"hello, w");
    assert_eq!(translated_refmut(satp, (5 << 12) + 4088, word, &mut mem), Ok(()));
    let word2 = u64::from_le_bytes(*b"orld!\0\0\0");
    assert_eq!(translated_refmut(satp, 6 << 12, word2, &mut mem), Ok(()));
    assert_eq!(try_translated_str(satp, (5 << 12) + 4088, 13, &mem), Ok(String::from("hello, world!")));
    assert_eq!(translated_bytes(satp, (5 << 12) + 4088, 2, &mem), Ok(vec![b'h', b'e']));
    assert_eq!(try_translated_str(satp, 6 << 12, 0, &mem), Ok(String::new()));
}

#[test]
fn invalid_text_is_an_encoding_error() {
    let (_alloc, mut mem, _t, satp) = space();
    assert_eq!(translated_refmut(satp, 5 << 12, 0xffff_ffff_ffff_ffff, &mut mem), Ok(()));
    assert_eq!(try_translated_str(satp, 5 << 12, 4, &mem), Err(MmError::InvalidEncoding));
    assert_eq!(try_translated_str(satp, (6 << 12) + 4090, 10, &mem), Err(MmError::TranslationMiss));
}

#[test]
fn user_context_starts_in_user_mode() {
    let cx = TrapContext::init_trap_context(Privilege::User, 0x1000, 7, 0x8000, 9, 0xa000, 0xb000);
    assert_eq!(cx.sstatus & 0x100, 0);
    assert!(cx.returns_to_user());
    assert_eq!(cx.spp, 0);
    assert_eq!(cx.x[2], 0x8000);
    assert_eq!(cx.sepc, 0x1000);
    assert_eq!(cx.satp, 7);
    assert_eq!(cx.kernel_satp, 9);
    assert_eq!(cx.kernel_sp, 0xa000);
    assert_eq!(cx.trap_handler, 0xb000);
    for (i, r) in cx.x.iter().enumerate() {
        if i != 2 {
            assert_eq!(*r, 0);
        }
    }
}

#[test]
fn supervisor_context_sets_previous_privilege_bit() {
    let mut cx = TrapContext::init_trap_context(Privilege::Supervisor, 1, 2, 3, 4, 5, 6);
    assert_eq!(cx.sstatus, 0x100);
    assert!(!cx.returns_to_user());
    assert_eq!(cx.spp, 1);
    cx.set_sp(0x42);
    assert_eq!(cx.x[2], 0x42);
}

#[test]
fn trap_context_is_located_through_task_table() {
    let (mut alloc, mut mem, mut t, _) = space();
    assert_eq!(t.try_map(VirtPageNum(TRAP_CONTEXT >> 12), PhysPageNum(111), PTE_R | PTE_W, &mut alloc, &mut mem), Ok(()));
    let satp = t.satp_bits(Mode::Sv39);
    assert_eq!(get_trap_context(satp, &mem), Ok(PhysAddr(111 << 12)));
    let other = PageTable::try_new(&mut alloc, &mut mem).unwrap();
    assert_eq!(
        get_trap_context(other.satp_bits(Mode::Sv39), &mem),
        Err(MmError::TranslationMiss)
    );
}

#[test]
fn trap_context_stored_in_task_frame_loads_back() {
    let (mut alloc, mut mem, mut t, _) = space();
    t.try_map(VirtPageNum(TRAP_CONTEXT >> 12), PhysPageNum(111), PTE_R | PTE_W, &mut alloc, &mut mem).unwrap();
    let satp = t.satp_bits(Mode::Sv39);
    let mut cx = TrapContext::init_trap_context(Privilege::User, 0x1000, satp, 0x8000, 9, 0xa000, 0xb000);
    cx.x[10] = 77;
    let frame = get_trap_context(satp, &mem).unwrap().0 >> 12;
    cx.store(frame, &mut mem);
    assert_eq!(mem.read(111, 2), 0x8000);
    assert_eq!(mem.read(111, 33), 0x1000);
    let back = TrapContext::load(frame, &mem);
    assert_eq!(back.x, cx.x);
    assert_eq!(back.sepc, 0x1000);
    assert_eq!(back.satp, satp);
    assert_eq!(back.kernel_satp, 9);
    assert_eq!(back.kernel_sp, 0xa000);
    assert_eq!(back.trap_handler, 0xb000);
    assert_eq!(back.sstatus, 0);
    assert_eq!(back.spp, 0);
    assert_eq!(translated_ref(satp, TRAP_CONTEXT + 8 * 10, &mem), Ok(77));
}

#[test]
fn fatal_free_forms_copy_mapped_ranges() {
    let (_alloc, mut mem, _t, satp) = space();
    let v = translated_byte_buffer(satp, (5 << 12) + 4090, 10, &mem);
    assert_eq!(
        v,
        vec![
            PageSlice { ppn: PhysPageNum(108), start: 4090, end: 4096 },
            PageSlice { ppn: PhysPageNum(110), start: 0, end: 4 },
        ]
    );
    assert_eq!(translated_refmut(satp, 6 << 12, u64::from_le_bytes(*b"kernel!\0"), &mut mem), Ok(()));
    assert_eq!(translated_str(satp, 6 << 12, 7, &mem), "kernel!");
}
