//! A verified four-level x86-64 pager: construction of the PML4 → PDPT →
//! PD → PT translation tree, a physical-page bitmap, allocation of single
//! pages and of virtually or physically contiguous runs, deallocation,
//! translation, and free-page search.
//!
//! The tree is modelled per level as a total map from packed entry keys to
//! 64-bit entries (`model`); address decomposition and the bit-level facts
//! live in `addr`; the executable pager and its contracts in `pager`; the
//! global laws, proved from the state invariant and the transition
//! effects, in `laws`.

use vstd::prelude::*;

pub mod addr;
pub mod constants;
pub mod laws;
pub mod model;
mod page_map;
pub mod pager;

pub use crate::constants::PAGE_SIZE;
pub use crate::pager::pages_for_bytes;
pub use crate::pager::Pager;

verus! {

} // verus!
