//! What the kernel reads from RISC-V control registers.

pub mod trap;
