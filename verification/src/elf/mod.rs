//! Allocation-free validation and load planning for static RISC-V ELF64 images.

pub mod header;
pub mod plan;
pub mod page_copy;
pub mod fixture;
