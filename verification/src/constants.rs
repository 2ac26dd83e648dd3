//! Configuration constants of the pager.

use vstd::prelude::*;

verus! {

/// Size of one page / physical frame in bytes.
pub const PAGE_SIZE: u64 = 4096;

/// Region covered by one page table: 512 pages, 2 MiB.
pub const PT_SIZE: u64 = 2097152;

/// Maximum virtual address the pager manages for its own searches: 8 GiB.
pub const VMEM_MAX: u64 = 8589934592;

/// Number of 4 KiB pages in the managed range.
pub const MAX_PAGES: u64 = 2097152;

/// Number of 64-bit words in the physical-page bitmap.
pub const PHYS_MAP_WORDS: u64 = 32768;

/// Upper end of the identity-mapped low region: 16 MiB.
pub const IDENTITY_END: u64 = 16777216;

} // verus!
