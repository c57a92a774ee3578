//! Architecture support.

pub mod x86;
