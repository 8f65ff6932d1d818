//! Memory core of a small Sv39 supervisor kernel: page and address types,
//! page-table entries, a frame allocator over a modelled physical memory,
//! three-level page tables, cross-address-space translation and the trap
//! context record.
pub mod addr;
pub mod pte;
pub mod memory;
pub mod error;
pub mod frame;
pub mod table;
pub mod translate;
pub mod trap;
pub mod syscall;
