//! The program that the firmware starts: it checks what the firmware hands over
//! and reports the machine.
pub mod crc32;
pub mod efi;
pub mod linha;
pub mod relatorio;
pub mod serial;
