//! What the device drivers compute: register values and bit-level protocol
//! steps. The register reads and writes themselves stay with the kernel.

pub mod neorv32_uart;
pub mod neorv32_sd;
