use vstd::prelude::*;
use vstd::utf8::{decode_utf8, valid_utf8};
use crate::addr::{PhysPageNum, VirtAddr};
use crate::error::MmError;
use crate::memory::PhysMemory;
use crate::pte::bits_ppn;
use crate::table::{mapping, translation, PageTable};

verus! {

/// The bytes `[start, end)` of physical frame `ppn`.
#[derive(Clone, Copy, Debug, PartialEq, Eq, Structural)]
pub struct PageSlice {
    pub ppn: PhysPageNum,
    pub start: u64,
    pub end: u64,
}

impl PageSlice {
    pub open spec fn len_spec(self) -> int {
        self.end - self.start
    }

    pub fn len(&self) -> (r: u64)
        requires
            self.start <= self.end,
        ensures
            r == self.len_spec(),
    {
        self.end - self.start
    }
}

/// The physical pieces of the virtual range `[va, va + n)` seen through the
/// table rooted at `root`, one per page touched, in order; `None` when a page
/// of the range is unmapped.
pub open spec fn views(mem: &PhysMemory, root: u64, va: nat, n: nat) -> Option<Seq<PageSlice>>
    decreases n,
{
    if n == 0 {
        Some(Seq::empty())
    } else {
        match mapping(mem, root, va / 4096) {
            None => None,
            Some(b) => {
                let off = va % 4096;
                let take: nat = if 4096 - off < n {
                    (4096 - off) as nat
                } else {
                    n
                };
                match views(mem, root, va + take, (n - take) as nat) {
                    None => None,
                    Some(rest) => Some(
                        seq![PageSlice { ppn: PhysPageNum(bits_ppn(b)), start: off as u64, end: (off + take) as u64 }]
                            + rest,
                    ),
                }
            },
        }
    }
}

/// The total length of `s`.
pub open spec fn total_len(s: Seq<PageSlice>) -> int
    decreases s.len(),
{
    if s.len() == 0 {
        0
    } else {
        s[0].len_spec() + total_len(s.drop_first())
    }
}

/// Whether virtual address `va` translates, through the table rooted at
/// `root`, to a byte that `mem` holds.
pub open spec fn readable(mem: &PhysMemory, root: u64, va: int) -> bool {
    0 <= va < 0x1_0000_0000_0000_0000 && match translation(mem, root, va as u64) {
        Some(a) => mem.holds((a / 4096) as u64),
        None => false,
    }
}

/// The byte that virtual address `va` reads through the table rooted at `root`.
pub open spec fn byte_via(mem: &PhysMemory, root: u64, va: int) -> u8 {
    mem.byte_at(translation(mem, root, va as u64).unwrap() as u64)
}

/// Whether byte `k` of the range at virtual address `ptr` is readable.
pub open spec fn readable_at(mem: &PhysMemory, root: u64, ptr: u64, k: int) -> bool {
    readable(mem, root, ptr + k)
}

/// Whether every byte of the `len` bytes at virtual address `ptr` is readable.
pub open spec fn range_readable(mem: &PhysMemory, root: u64, ptr: u64, len: u64) -> bool {
    forall|k: int| 0 <= k < len ==> #[trigger] readable_at(mem, root, ptr, k)
}

/// The `len` bytes at virtual address `ptr`, read through the table rooted at `root`.
pub open spec fn bytes_via(mem: &PhysMemory, root: u64, ptr: u64, len: u64) -> Seq<u8> {
    Seq::new(len as nat, |k: int| byte_via(mem, root, ptr + k))
}

/// The pieces of the range cover exactly its length, and each piece lies in
/// one page.
pub proof fn lemma_views_cover(mem: &PhysMemory, root: u64, va: nat, n: nat)
    requires
        views(mem, root, va, n) is Some,
    ensures
        total_len(views(mem, root, va, n).unwrap()) == n,
        forall|k: int|
            0 <= k < views(mem, root, va, n).unwrap().len() ==> {
                let v = #[trigger] views(mem, root, va, n).unwrap()[k];
                v.start < v.end <= 4096
            },
    decreases n,
{
    if n > 0 {
        let b = mapping(mem, root, va / 4096).unwrap();
        let off = va % 4096;
        let take: nat = if 4096 - off < n {
            (4096 - off) as nat
        } else {
            n
        };
        lemma_views_cover(mem, root, va + take, (n - take) as nat);
        let s = views(mem, root, va, n).unwrap();
        let rest = views(mem, root, va + take, (n - take) as nat).unwrap();
        assert(s.drop_first() =~= rest);
        assert forall|k: int| 0 <= k < s.len() implies {
            let v = #[trigger] s[k];
            v.start < v.end <= 4096
        } by {
            if k > 0 {
                assert(s[k] == rest[k - 1]);
            }
        }
    }
}

/// The pieces of physical memory behind the `len` bytes at virtual address
/// `ptr` of the address space whose table-base value is `satp`, split at page
/// boundaries. Every page of the range must be mapped.
pub fn translated_byte_buffer(satp: u64, ptr: u64, len: u64, mem: &PhysMemory) -> (r: Vec<PageSlice>)
    requires
        mem.wf(),
        ptr + len <= u64::MAX,
        views(mem, satp & 0xfff_ffff_ffffu64, ptr as nat, len as nat) is Some,
    ensures
        r@ == views(mem, satp & 0xfff_ffff_ffffu64, ptr as nat, len as nat).unwrap(),
{
    let r = try_translated_byte_buffer(satp, ptr, len, mem);
    r.unwrap()
}

/// The pieces of physical memory behind the `len` bytes at virtual address
/// `ptr` of the address space whose table-base value is `satp`, split at page
/// boundaries. `TranslationMiss` when a page of the range is unmapped.
pub fn try_translated_byte_buffer(satp: u64, ptr: u64, len: u64, mem: &PhysMemory) -> (r: Result<
    Vec<PageSlice>,
    MmError,
>)
    requires
        mem.wf(),
        ptr + len <= u64::MAX,
    ensures
        match views(mem, satp & 0xfff_ffff_ffffu64, ptr as nat, len as nat) {
            Some(v) => r matches Ok(w) && w@ == v,
            None => r == Err::<Vec<PageSlice>, MmError>(MmError::TranslationMiss),
        },
{
    let table = PageTable::from_satp(satp);
    let ghost root = table.root_spec();
    let end = ptr + len;
    let mut start = ptr;
    let mut v: Vec<PageSlice> = Vec::new();
    while start < end
        invariant
            mem.wf(),
            table.root_spec() == root,
            root == satp & 0xfff_ffff_ffffu64,
            ptr <= start <= end,
            views(mem, root, ptr as nat, len as nat) == match views(
                mem,
                root,
                start as nat,
                (end - start) as nat,
            ) {
                Some(rest) => Some(v@ + rest),
                None => None::<Seq<PageSlice>>,
            },
        decreases end - start,
    {
        let va = VirtAddr(start);
        let e = match table.translate(va.floor(), mem) {
            Some(e) => e,
            None => {
                assert(views(mem, root, start as nat, (end - start) as nat) is None);
                return Err(MmError::TranslationMiss);
            },
        };
        if !e.is_valid() {
            assert(views(mem, root, start as nat, (end - start) as nat) is None);
            return Err(MmError::TranslationMiss);
        }
        let off = va.page_offset();
        let take = if 4096 - off < end - start {
            4096 - off
        } else {
            end - start
        };
        let piece = PageSlice { ppn: e.ppn(), start: off, end: off + take };
        let ghost old_v = v@;
        v.push(piece);
        proof {
            let rest = views(mem, root, (start + take) as nat, (end - start - take) as nat);
            assert(((start + take) as nat) == start as nat + take as nat);
            match rest {
                Some(rs) => {
                    assert(old_v + (seq![piece] + rs) =~= v@ + rs);
                },
                None => {},
            }
        }
        start = start + take;
    }
    proof {
        assert(v@ + Seq::<PageSlice>::empty() =~= v@);
    }
    Ok(v)
}

/// The `len` bytes at virtual address `ptr` of the address space whose
/// table-base value is `satp`, read one by one. `TranslationMiss` when one of
/// them does not translate to a byte of `mem`.
pub fn translated_bytes(satp: u64, ptr: u64, len: u64, mem: &PhysMemory) -> (r: Result<
    Vec<u8>,
    MmError,
>)
    requires
        mem.wf(),
    ensures
        range_readable(mem, satp & 0xfff_ffff_ffffu64, ptr, len) <==> r is Ok,
        r is Err ==> r == Err::<Vec<u8>, MmError>(MmError::TranslationMiss),
        r matches Ok(b) ==> b@ == bytes_via(mem, satp & 0xfff_ffff_ffffu64, ptr, len),
{
    let table = PageTable::from_satp(satp);
    let ghost root = table.root_spec();
    let mut bytes: Vec<u8> = Vec::new();
    let mut k: u64 = 0;
    while k < len
        invariant
            mem.wf(),
            table.root_spec() == root,
            root == satp & 0xfff_ffff_ffffu64,
            k <= len,
            bytes@.len() == k,
            forall|j: int| 0 <= j < k ==> #[trigger] readable_at(mem, root, ptr, j),
            forall|j: int| 0 <= j < k ==> bytes@[j] == byte_via(mem, root, ptr + j),
        decreases len - k,
    {
        if ptr > u64::MAX - k {
            assert(!readable_at(mem, root, ptr, k as int));
            return Err(MmError::TranslationMiss);
        }
        let va = ptr + k;
        let pa = match table.translate_va_to_pa(VirtAddr(va), mem) {
            Ok(pa) => pa,
            Err(e) => {
                assert(!readable_at(mem, root, ptr, k as int));
                return Err(e);
            },
        };
        if !mem.contains(pa.0 / 4096) {
            assert(!readable_at(mem, root, ptr, k as int));
            return Err(MmError::TranslationMiss);
        }
        bytes.push(mem.read_byte(pa.0));
        k = k + 1;
    }
    assert(bytes@ =~= bytes_via(mem, root, ptr, len));
    Ok(bytes)
}

/// Relies on `String::from_utf8`: it succeeds exactly on valid UTF-8, and the
/// text it returns decodes those bytes.
#[verifier::external_body]
fn decode_text(bytes: Vec<u8>) -> (r: Option<String>)
    ensures
        match r {
            Some(s) => valid_utf8(bytes@) && s@ == decode_utf8(bytes@),
            None => !valid_utf8(bytes@),
        },
{
    String::from_utf8(bytes).ok()
}

/// The text in the `len` bytes at virtual address `ptr` of the address space
/// whose table-base value is `satp`. Every byte must translate, and the bytes
/// must be UTF-8.
pub fn translated_str(satp: u64, ptr: u64, len: u64, mem: &PhysMemory) -> (r: String)
    requires
        mem.wf(),
        range_readable(mem, satp & 0xfff_ffff_ffffu64, ptr, len),
        valid_utf8(bytes_via(mem, satp & 0xfff_ffff_ffffu64, ptr, len)),
    ensures
        r@ == decode_utf8(bytes_via(mem, satp & 0xfff_ffff_ffffu64, ptr, len)),
{
    let r = try_translated_str(satp, ptr, len, mem);
    r.unwrap()
}

/// The text in the `len` bytes at virtual address `ptr` of the address space
/// whose table-base value is `satp`. `TranslationMiss` when a byte does not
/// translate, `InvalidEncoding` when the bytes are not UTF-8.
pub fn try_translated_str(satp: u64, ptr: u64, len: u64, mem: &PhysMemory) -> (r: Result<
    String,
    MmError,
>)
    requires
        mem.wf(),
    ensures
        !range_readable(mem, satp & 0xfff_ffff_ffffu64, ptr, len) ==> r == Err::<String, MmError>(
            MmError::TranslationMiss,
        ),
        range_readable(mem, satp & 0xfff_ffff_ffffu64, ptr, len) ==> {
            let b = bytes_via(mem, satp & 0xfff_ffff_ffffu64, ptr, len);
            &&& !valid_utf8(b) ==> r == Err::<String, MmError>(MmError::InvalidEncoding)
            &&& valid_utf8(b) ==> (r matches Ok(s) && s@ == decode_utf8(b))
        },
{
    let bytes = match translated_bytes(satp, ptr, len, mem) {
        Ok(b) => b,
        Err(e) => return Err(e),
    };
    match decode_text(bytes) {
        Some(s) => Ok(s),
        None => Err(MmError::InvalidEncoding),
    }
}

/// The 64-bit word at the 8-aligned virtual address `ptr` of the address
/// space whose table-base value is `satp`. `TranslationMiss` when it does not
/// translate to memory that `mem` holds.
pub fn translated_ref(satp: u64, ptr: u64, mem: &PhysMemory) -> (r: Result<u64, MmError>)
    requires
        mem.wf(),
        ptr % 8 == 0,
    ensures
        readable(mem, satp & 0xfff_ffff_ffffu64, ptr as int) ==> {
            let a = translation(mem, satp & 0xfff_ffff_ffffu64, ptr).unwrap();
            r == Ok::<u64, MmError>(mem.entry((a / 4096) as u64, (a % 4096) / 8))
        },
        !readable(mem, satp & 0xfff_ffff_ffffu64, ptr as int) ==> r == Err::<u64, MmError>(
            MmError::TranslationMiss,
        ),
{
    let table = PageTable::from_satp(satp);
    let pa = match table.translate_va_to_pa(VirtAddr(ptr), mem) {
        Ok(pa) => pa,
        Err(e) => return Err(e),
    };
    if !mem.contains(pa.0 / 4096) {
        return Err(MmError::TranslationMiss);
    }
    Ok(mem.read(pa.0 / 4096, ((pa.0 % 4096) / 8) as usize))
}

/// Stores `value` as the 64-bit word at the 8-aligned virtual address `ptr`
/// of the address space whose table-base value is `satp`. `TranslationMiss`,
/// with nothing written, when it does not translate to memory that `mem`
/// holds.
pub fn translated_refmut(satp: u64, ptr: u64, value: u64, mem: &mut PhysMemory) -> (r: Result<
    (),
    MmError,
>)
    requires
        old(mem).wf(),
        ptr % 8 == 0,
    ensures
        final(mem).wf(),
        final(mem).base_spec() == old(mem).base_spec(),
        final(mem).frames_spec() == old(mem).frames_spec(),
        readable(old(mem), satp & 0xfff_ffff_ffffu64, ptr as int) ==> {
            let a = translation(old(mem), satp & 0xfff_ffff_ffffu64, ptr).unwrap();
            &&& r is Ok
            &&& final(mem).entry((a / 4096) as u64, (a % 4096) / 8) == value
            &&& final(mem).same_except_slot(old(mem), (a / 4096) as u64, (a % 4096) / 8)
        },
        !readable(old(mem), satp & 0xfff_ffff_ffffu64, ptr as int) ==> r == Err::<(), MmError>(
            MmError::TranslationMiss,
        ) && *final(mem) == *old(mem),
{
    let table = PageTable::from_satp(satp);
    let pa = match table.translate_va_to_pa(VirtAddr(ptr), mem) {
        Ok(pa) => pa,
        Err(e) => return Err(e),
    };
    if !mem.contains(pa.0 / 4096) {
        return Err(MmError::TranslationMiss);
    }
    mem.write(pa.0 / 4096, ((pa.0 % 4096) / 8) as usize, value);
    Ok(())
}

} // verus!
