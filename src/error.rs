use vstd::prelude::*;

verus! {

/// The ways an operation of the memory core can fail.
#[derive(Clone, Copy, Debug, PartialEq, Eq, Structural)]
pub enum MmError {
    /// No recycled frame and no unused frame is left.
    OutOfMemory,
    /// The frame was never handed out by the allocator.
    InvalidFree,
    /// The frame is already free.
    DoubleFree,
    /// The leaf slot of the page is already valid.
    MappingConflict,
    /// The leaf slot of the page is not valid.
    UnmappingInvalid,
    /// The virtual page has no mapping.
    TranslationMiss,
    /// The bytes read are not UTF-8.
    InvalidEncoding,
}

} // verus!
