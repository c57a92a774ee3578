//! Diagnostics: the audit trail.

pub mod audit;
