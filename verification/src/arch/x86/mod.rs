//! x86-64: CPUID feature decoding, local APIC IPI sequences, the AP trampoline
//! and the VMX/SVM entry checks.

pub mod cpuid;
pub mod lapic;
pub mod trampoline;
pub mod idt;
pub mod vm;
