//! MiniOS: verified boot-bundle, control-protocol, ELF, device-tree and
//! memory-management logic of a small RISC-V kernel.

pub mod bytes;
pub mod text;
pub mod abi;
pub mod vm;
pub mod elf;
pub mod fdt;
pub mod memory;
pub mod sbi;
pub mod shell;
pub mod arch;
pub mod boot_payload;
pub mod process;
pub mod machine;
pub mod payload_run;
pub mod drivers;
pub mod console;
