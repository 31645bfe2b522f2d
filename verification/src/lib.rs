//! Measured-boot helpers for a bare-metal chain of trust: PCR measurement
//! (SHA-256 extend), ML-KEM-768 shared-secret checks, the hex encoding the
//! firmware prints, and the host-side parsers that read that output back.

pub mod hex;
pub mod text;
pub mod const_array;
pub mod digest;
pub mod kem;
pub mod elf;
pub mod report;
pub mod chain;
pub mod boot_report;
pub mod uart;
pub mod laws;
pub mod boot_laws;
pub mod uart_laws;
pub mod const_array_laws;
