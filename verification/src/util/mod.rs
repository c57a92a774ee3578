//! Small shared utilities.

pub mod bytes;
pub mod crc32;
pub mod format;
