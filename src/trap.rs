use vstd::prelude::*;
use crate::addr::{PhysAddr, VirtAddr};
use crate::error::MmError;
use crate::memory::PhysMemory;
use crate::table::{translation, PageTable};

verus! {

/// Virtual address of the trampoline page, the last page of every address space.
pub const TRAMPOLINE: u64 = 0xffff_ffff_ffff_f000;

/// Virtual address of the page holding a task's trap context, just below the
/// trampoline in every address space.
pub const TRAP_CONTEXT: u64 = 0xffff_ffff_ffff_e000;

/// The `sstatus` bit that records a trap from supervisor mode.
pub const SSTATUS_SPP: u64 = 0x100;

/// Index of the stack pointer among the general registers.
pub const REG_SP: usize = 2;

/// The privilege level a trap came from, and that `sret` returns to.
#[derive(Clone, Copy, Debug, PartialEq, Eq, Structural)]
pub enum Privilege {
    User,
    Supervisor,
}

/// The `sstatus` value that makes `sret` return to `mode`.
pub open spec fn status_for(mode: Privilege) -> u64 {
    match mode {
        Privilege::User => 0,
        Privilege::Supervisor => 0x100,
    }
}

/// The encoding of `mode` in the previous-privilege field.
pub open spec fn privilege_code(mode: Privilege) -> u64 {
    match mode {
        Privilege::User => 0,
        Privilege::Supervisor => 1,
    }
}

/// The state a task saves on a trap: its 32 general registers, status and
/// program counter, its own table base, and the kernel table base, kernel
/// stack and handler address that the trap entry switches to.
pub struct TrapContext {
    pub x: [u64; 32],
    pub sstatus: u64,
    pub sepc: u64,
    pub satp: u64,
    pub kernel_satp: u64,
    pub kernel_sp: u64,
    pub trap_handler: u64,
    pub spp: u64,
}

impl TrapContext {
    /// Sets the saved stack pointer.
    pub fn set_sp(&mut self, sp: u64)
        ensures
            final(self).x@ == old(self).x@.update(2, sp),
            final(self).sepc == old(self).sepc,
            final(self).satp == old(self).satp,
            final(self).sstatus == old(self).sstatus,
            final(self).kernel_satp == old(self).kernel_satp,
            final(self).kernel_sp == old(self).kernel_sp,
            final(self).trap_handler == old(self).trap_handler,
            final(self).spp == old(self).spp,
    {
        self.x[REG_SP] = sp;
    }

    /// A fresh record for a task that starts at `entry` in `mode` on stack
    /// `sp` under table base `satp`, trapping to `trap_handler` on stack
    /// `kernel_sp` under table base `kernel_satp`.
    pub fn init_trap_context(
        mode: Privilege,
        entry: u64,
        satp: u64,
        sp: u64,
        kernel_satp: u64,
        kernel_sp: u64,
        trap_handler: u64,
    ) -> (r: TrapContext)
        ensures
            r.x@ == Seq::new(32, |i: int| 0u64).update(2, sp),
            r.sepc == entry,
            r.satp == satp,
            r.sstatus == status_for(mode),
            r.spp == privilege_code(mode),
            r.kernel_satp == kernel_satp,
            r.kernel_sp == kernel_sp,
            r.trap_handler == trap_handler,
    {
        let (sstatus, spp): (u64, u64) = match mode {
            Privilege::Supervisor => (SSTATUS_SPP, 1),
            Privilege::User => (0, 0),
        };
        let mut cx = TrapContext {
            x: [0u64; 32],
            sstatus,
            sepc: entry,
            satp,
            kernel_satp,
            kernel_sp,
            trap_handler,
            spp,
        };
        cx.set_sp(sp);
        assert(cx.x@ =~= Seq::new(32, |i: int| 0u64).update(2, sp));
        cx
    }

    /// Whether the record returns to user mode.
    pub fn returns_to_user(&self) -> (r: bool)
        ensures
            r == (self.sstatus & 0x100u64 == 0),
    {
        self.sstatus & SSTATUS_SPP == 0
    }
}

/// Words a trap context takes in memory.
pub const CONTEXT_WORDS: usize = 39;

/// Word `k` of the in-memory layout of `cx`: the 32 general registers, then
/// `sstatus`, `sepc`, `satp`, `kernel_satp`, `kernel_sp`, `trap_handler`, `spp`.
pub open spec fn context_word(cx: TrapContext, k: int) -> u64 {
    if k < 32 {
        cx.x@[k]
    } else if k == 32 {
        cx.sstatus
    } else if k == 33 {
        cx.sepc
    } else if k == 34 {
        cx.satp
    } else if k == 35 {
        cx.kernel_satp
    } else if k == 36 {
        cx.kernel_sp
    } else if k == 37 {
        cx.trap_handler
    } else {
        cx.spp
    }
}

impl TrapContext {
    /// Writes this record at the start of frame `frame`, leaving every other
    /// word of memory alone.
    pub fn store(&self, frame: u64, mem: &mut PhysMemory)
        requires
            old(mem).wf(),
            old(mem).holds(frame),
        ensures
            final(mem).wf(),
            final(mem).base_spec() == old(mem).base_spec(),
            final(mem).frames_spec() == old(mem).frames_spec(),
            forall|k: int| 0 <= k < 39 ==> #[trigger] final(mem).entry(frame, k) == context_word(*self, k),
            forall|q: u64, j: int|
                !(q == frame && 0 <= j < 39) && final(mem).holds(q) && 0 <= j < 512
                    ==> #[trigger] final(mem).entry(q, j) == old(mem).entry(q, j),
    {
        let tail: [u64; 7] = [
            self.sstatus,
            self.sepc,
            self.satp,
            self.kernel_satp,
            self.kernel_sp,
            self.trap_handler,
            self.spp,
        ];
        let mut k: usize = 0;
        while k < CONTEXT_WORDS
            invariant
                mem.wf(),
                mem.holds(frame),
                mem.base_spec() == old(mem).base_spec(),
                mem.frames_spec() == old(mem).frames_spec(),
                k <= 39,
                forall|i: int| 0 <= i < 7 ==> tail@[i] == context_word(*self, i + 32),
                forall|i: int| 0 <= i < k ==> #[trigger] mem.entry(frame, i) == context_word(*self, i),
                forall|q: u64, j: int|
                    !(q == frame && 0 <= j < k) && mem.holds(q) && 0 <= j < 512
                        ==> #[trigger] mem.entry(q, j) == old(mem).entry(q, j),
            decreases 39 - k,
        {
            let w = if k < 32 {
                self.x[k]
            } else {
                tail[k - 32]
            };
            let ghost before = *mem;
            mem.write(frame, k, w);
            assert forall|i: int| 0 <= i < k + 1 implies #[trigger] mem.entry(frame, i) == context_word(
                *self,
                i,
            ) by {
                if i < k {
                    assert(before.entry(frame, i) == context_word(*self, i));
                }
            }
            assert forall|q: u64, j: int|
                !(q == frame && 0 <= j < k + 1) && mem.holds(q) && 0 <= j < 512 implies #[trigger] mem.entry(
                q,
                j,
            ) == old(mem).entry(q, j) by {
                assert(before.entry(q, j) == old(mem).entry(q, j));
            }
            k = k + 1;
        }
    }

    /// Reads the record at the start of frame `frame`.
    pub fn load(frame: u64, mem: &PhysMemory) -> (r: TrapContext)
        requires
            mem.wf(),
            mem.holds(frame),
        ensures
            forall|k: int| 0 <= k < 39 ==> context_word(r, k) == #[trigger] mem.entry(frame, k),
    {
        let mut x = [0u64; 32];
        let mut k: usize = 0;
        while k < 32
            invariant
                mem.wf(),
                mem.holds(frame),
                k <= 32,
                forall|i: int| 0 <= i < k ==> x@[i] == #[trigger] mem.entry(frame, i),
            decreases 32 - k,
        {
            x[k] = mem.read(frame, k);
            k = k + 1;
        }
        TrapContext {
            x,
            sstatus: mem.read(frame, 32),
            sepc: mem.read(frame, 33),
            satp: mem.read(frame, 34),
            kernel_satp: mem.read(frame, 35),
            kernel_sp: mem.read(frame, 36),
            trap_handler: mem.read(frame, 37),
            spp: mem.read(frame, 38),
        }
    }
}

/// A record `a` stored into frame `frame` of `mem` and loaded back as `b` is
/// the same record.
pub proof fn lemma_store_then_load(a: TrapContext, mem: PhysMemory, frame: u64, b: TrapContext)
    requires
        forall|k: int| 0 <= k < 39 ==> #[trigger] mem.entry(frame, k) == context_word(a, k),
        forall|k: int| 0 <= k < 39 ==> context_word(b, k) == #[trigger] mem.entry(frame, k),
    ensures
        a.x@ == b.x@,
        a.sstatus == b.sstatus,
        a.sepc == b.sepc,
        a.satp == b.satp,
        a.kernel_satp == b.kernel_satp,
        a.kernel_sp == b.kernel_sp,
        a.trap_handler == b.trap_handler,
        a.spp == b.spp,
{
    assert forall|k: int| 0 <= k < 39 implies #[trigger] context_word(a, k) == context_word(b, k) by {
        assert(mem.entry(frame, k) == context_word(a, k));
    }
    assert forall|k: int| 0 <= k < 32 implies a.x@[k] == b.x@[k] by {
        assert(context_word(a, k) == context_word(b, k));
    }
    assert(a.x@ =~= b.x@);
    assert(context_word(a, 32) == context_word(b, 32));
    assert(context_word(a, 33) == context_word(b, 33));
    assert(context_word(a, 34) == context_word(b, 34));
    assert(context_word(a, 35) == context_word(b, 35));
    assert(context_word(a, 36) == context_word(b, 36));
    assert(context_word(a, 37) == context_word(b, 37));
    assert(context_word(a, 38) == context_word(b, 38));
}

/// The physical address of the trap context of the task whose table-base
/// value is `satp`, found through a non-owning view of its table.
/// `TranslationMiss` when that task has no trap-context page mapped.
pub fn get_trap_context(satp: u64, mem: &PhysMemory) -> (r: Result<PhysAddr, MmError>)
    requires
        mem.wf(),
    ensures
        match translation(mem, satp & 0xfff_ffff_ffffu64, TRAP_CONTEXT) {
            Some(a) => r == Ok::<PhysAddr, MmError>(PhysAddr(a as u64)),
            None => r == Err::<PhysAddr, MmError>(MmError::TranslationMiss),
        },
{
    let table = PageTable::from_satp(satp);
    table.translate_va_to_pa(VirtAddr(TRAP_CONTEXT), mem)
}

} // verus!
