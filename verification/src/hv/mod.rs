//! Virtual CPUs, virtual machines and the VM registry.

pub mod vcpu;
pub mod vm;
