//! Wire formats shared between the kernel, its guests and the host.

pub mod ready;
pub mod proc_exit;
pub mod control;
pub mod syscall;
pub mod boot;
pub mod manifest;
