//! Firmware tables.

pub mod acpi;
