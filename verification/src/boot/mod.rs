//! The UEFI boot loader's logic: the firmware memory map and the PE/COFF
//! entry point of the hypervisor image.

pub mod memory;
pub mod loader;
