//! Locating the entry point of the hypervisor's PE/COFF image.

use vstd::prelude::*;
use crate::firmware::acpi::{le32_at, read_le32};

verus! {

/// Why an image was refused.
#[derive(Clone, Copy, Debug, PartialEq, Eq, Structural)]
pub enum LoaderError {
    /// Not a PE/COFF image the loader can use (the firmware's INVALID_PARAMETER).
    InvalidParameter,
}

/// The PE header offset stored at 60 in the DOS header.
pub open spec fn pe_offset(b: Seq<u8>) -> int {
    le32_at(b, 60) as int
}

/// A usable image: at least 64 bytes, "MZ", "PE\0\0" at the PE offset, and
/// the optional header's first 20 bytes present.
pub open spec fn pe_ok(b: Seq<u8>) -> bool {
    &&& b.len() >= 64
    &&& b[0] == 0x4D && b[1] == 0x5A
    &&& b.len() >= pe_offset(b) + 24
    &&& b[pe_offset(b)] == 0x50 && b[pe_offset(b) + 1] == 0x45 && b[pe_offset(b) + 2] == 0 && b[pe_offset(b) + 3] == 0
    &&& b.len() >= pe_offset(b) + 24 + 20
}

/// The entry point RVA: 16 bytes into the optional header.
pub open spec fn entry_rva(b: Seq<u8>) -> u64 {
    le32_at(b, pe_offset(b) + 40) as u64
}

/// Loads the hypervisor image: the firmware reads the file into pages; the
/// loader sizes the allocation and finds the entry point.
pub struct HypervisorLoader;

impl HypervisorLoader {
    pub fn new() -> (l: HypervisorLoader) {
        HypervisorLoader
    }

    /// Pages to allocate for an image of `file_size` bytes.
    pub fn pages_for(file_size: usize) -> (n: usize)
        ensures
            n == (file_size + 4095) / 4096,
    {
        if file_size > usize::MAX - 4095 {
            (file_size / 4096) + 1
        } else {
            (file_size + 4095) / 4096
        }
    }

    /// The image's entry point (relative to its load address). An image too
    /// short to hold the entry-point field is refused like any other bad image.
    pub fn parse_pe_entry_point(&self, buffer: &[u8]) -> (r: Result<u64, LoaderError>)
        ensures
            r is Ok <==> pe_ok(buffer@),
            r matches Ok(e) ==> e == entry_rva(buffer@),
            r matches Err(e) ==> e == LoaderError::InvalidParameter,
    {
        let len = buffer.len();
        if len < 64 {
            return Err(LoaderError::InvalidParameter);
        }
        if buffer[0] != 0x4D || buffer[1] != 0x5A {
            return Err(LoaderError::InvalidParameter);
        }
        let pe = read_le32(buffer, 60) as usize;
        if pe > len || len - pe < 24 {
            return Err(LoaderError::InvalidParameter);
        }
        if buffer[pe] != 0x50 || buffer[pe + 1] != 0x45 || buffer[pe + 2] != 0 || buffer[pe + 3] != 0 {
            return Err(LoaderError::InvalidParameter);
        }
        let opt = pe + 24;
        if len - opt < 20 {
            return Err(LoaderError::InvalidParameter);
        }
        Ok(read_le32(buffer, opt + 16) as u64)
    }

    /// Address of the entry point of an image loaded at `load_addr`.
    pub fn entry_address(load_addr: u64, rva: u64) -> (a: u64)
        requires
            load_addr + rva <= u64::MAX,
        ensures
            a == load_addr + rva,
    {
        load_addr + rva
    }
}

} // verus!
