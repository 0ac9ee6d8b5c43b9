//! Process address-space management: virtual memory areas, the per-process
//! address space, and its duplication on fork.

pub mod ids;
pub mod keyed;
pub mod space;
pub mod vma;
pub mod user_stack;
pub mod dtb;
