//! Zerovisor: verified core logic of a UEFI type-1 hypervisor bootstrap.

pub mod arch;
pub mod mm;
pub mod iommu;
pub mod util;
pub mod migrate;
pub mod obs;
pub mod diag;
pub mod hv;
pub mod i18n;
pub mod time;
pub mod firmware;
pub mod boot;
pub mod ctl;
pub mod virtio;
pub mod arm64;
pub use boot::memory::MemoryMap;
pub use boot::loader::HypervisorLoader;
