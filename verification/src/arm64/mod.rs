//! ARM64 support: EL2 capability from the processor feature register, the
//! hypervisor configuration register's default, and the error mapping. Off
//! an ARM64 host the bring-up is a no-op.

use vstd::prelude::*;

verus! {

/// ARM64 specific errors.
#[derive(Clone, Copy, Debug, PartialEq, Eq, Structural)]
pub enum Arm64Error {
    UnsupportedCpu,
    VirtualizationNotSupported,
    InvalidSystemRegister,
    MemoryError,
    InterruptError,
}

/// The hardware-layer errors ARM64 errors map to.
#[derive(Clone, Copy, Debug, PartialEq, Eq, Structural)]
pub enum HalError {
    HardwareNotSupported,
    InitializationFailed,
}

/// An unsupported CPU or missing virtualization is unsupported hardware;
/// anything else a failed initialization.
pub open spec fn hal_error_spec(e: Arm64Error) -> HalError {
    match e {
        Arm64Error::UnsupportedCpu => HalError::HardwareNotSupported,
        Arm64Error::VirtualizationNotSupported => HalError::HardwareNotSupported,
        _ => HalError::InitializationFailed,
    }
}

pub fn hal_error_of(e: Arm64Error) -> (r: HalError)
    ensures
        r == hal_error_spec(e),
{
    match e {
        Arm64Error::UnsupportedCpu => HalError::HardwareNotSupported,
        Arm64Error::VirtualizationNotSupported => HalError::HardwareNotSupported,
        _ => HalError::InitializationFailed,
    }
}

/// Bring-up on a host that is not ARM64: nothing to do.
pub fn init() -> (r: Result<(), ()>)
    ensures
        r is Ok,
{
    Ok(())
}

/// EL2 is implemented: ID_AA64PFR0_EL1 bits 11:8 are at least 1.
pub fn has_virtualization_support(id_aa64pfr0: u64) -> (b: bool)
    ensures
        b == ((id_aa64pfr0 >> 8u64) & 0xF >= 1),
{
    (id_aa64pfr0 >> 8u64) & 0xF >= 1
}

/// HCR_EL2 bits: 64-bit EL1, SError/IRQ/FIQ routed to EL2, general trap.
pub const HCR_RW: u64 = 0x8000_0000;
pub const HCR_AMO: u64 = 0x20;
pub const HCR_IMO: u64 = 0x10;
pub const HCR_FMO: u64 = 0x8;
pub const HCR_TGE: u64 = 0x800_0000;

/// The value CPU bring-up writes to HCR_EL2, when EL2 is present.
pub fn cpu_init(id_aa64pfr0: u64) -> (r: Result<u64, HalError>)
    ensures
        has_virt(id_aa64pfr0) ==> r == Ok::<u64, HalError>(HCR_RW | HCR_AMO | HCR_IMO | HCR_FMO | HCR_TGE),
        !has_virt(id_aa64pfr0) ==> r == Err::<u64, HalError>(HalError::HardwareNotSupported),
{
    if !has_virtualization_support(id_aa64pfr0) {
        return Err(HalError::HardwareNotSupported);
    }
    Ok(HCR_RW | HCR_AMO | HCR_IMO | HCR_FMO | HCR_TGE)
}

pub open spec fn has_virt(id_aa64pfr0: u64) -> bool {
    (id_aa64pfr0 >> 8u64) & 0xF >= 1
}

/// Memory management on ARM64: identity translation with 4 KiB pages.
pub struct Arm64MemoryMgr;

impl Arm64MemoryMgr {
    pub fn init() -> (r: Result<Arm64MemoryMgr, ()>)
        ensures
            r is Ok,
    {
        Ok(Arm64MemoryMgr)
    }

    pub fn translate(&self, virt: u64) -> (r: Option<u64>)
        ensures
            r == Some(virt),
    {
        Some(virt)
    }

    pub fn page_size(&self) -> (r: usize)
        ensures
            r == 4096,
    {
        4096
    }

    pub fn allocate_physical(&mut self, size: usize, alignment: usize) -> (r: Result<u64, ()>)
        ensures
            r == Ok::<u64, ()>(0),
    {
        Ok(0)
    }

    pub fn is_valid_address(&self, addr: u64) -> (r: bool)
        ensures
            r,
    {
        true
    }
}

/// The ARM64 virtualization engine (stage-2 translation): always available.
pub struct ArmVheEngine;

impl ArmVheEngine {
    pub fn init() -> (r: Result<ArmVheEngine, HalError>)
        ensures
            r is Ok,
    {
        Ok(ArmVheEngine)
    }

    pub fn is_supported() -> (b: bool)
        ensures
            b,
    {
        true
    }

    /// Handle of a new VM.
    pub fn create_vm(&mut self) -> (r: Result<u64, HalError>)
        ensures
            r == Ok::<u64, HalError>(1),
    {
        Ok(1)
    }
}

} // verus!
