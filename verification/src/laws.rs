//! The pager's global laws, each stated over the model and proved from
//! the invariant and the transition effects.

use vstd::prelude::*;

use crate::addr::{
    aligned, entry_frame, entry_present, l1_key, l2_key, l3_key, l4_key, lemma_const_bits,
    lemma_entry_flags, lemma_frame_or_offset, lemma_key_chain, lemma_offset_same_page, page_of,
};
use crate::constants::{IDENTITY_END, VMEM_MAX};
use crate::model::{lemma_identity_fill, lemma_map_effect, lemma_unmap_virt_effect, MemView};

verus! {

/// Alignment: the frame stored in any present page-table leaf of a
/// reachable state is page-aligned — the leaf is exactly that frame with
/// the low flag bits 0x3 — and lies in the managed range.
pub proof fn lemma_leaf_frame_aligned(m: MemView, k: u64)
    requires
        m.inv(),
        entry_present(m.l1[k]),
    ensures
        aligned(entry_frame(m.l1[k])),
        m.l1[k] == entry_frame(m.l1[k]) | 3,
        entry_frame(m.l1[k]) < VMEM_MAX,
{
    lemma_const_bits(0);
    lemma_entry_flags(m.l1[k]);
    crate::addr::lemma_frame_aligned(m.l1[k]);
}

/// Every non-zero table entry of a reachable state is present: the pager
/// writes flags 0x3 on every link and leaf it creates, and clears whole
/// entries when it unmaps.
pub proof fn lemma_nonzero_entries_present(m: MemView, k: u64)
    requires
        m.inv(),
    ensures
        m.l4[k] != 0 ==> entry_present(m.l4[k]),
        m.l3[k] != 0 ==> entry_present(m.l3[k]),
        m.l2[k] != 0 ==> entry_present(m.l2[k]),
        m.l1[k] != 0 ==> entry_present(m.l1[k]),
{
    lemma_const_bits(0);
    lemma_entry_flags(m.l1[k]);
}

/// Bitmap consistency, converse direction: every raised bitmap bit of a
/// reachable state is owned by at least one present leaf whose frame is
/// that very page.
pub proof fn lemma_bitmap_bit_has_leaf(m: MemView, pg: u64)
    requires
        m.inv(),
        m.phys_bit(pg),
    ensures
        exists|k: u64| entry_present(#[trigger] m.l1[k]) && entry_frame(m.l1[k]) == pg * 4096,
{
}

/// Bitmap consistency, forward direction, at the moment of mapping: a
/// successful map raises the bitmap bit of the mapped frame.
pub proof fn lemma_map_raises_bit(m: MemView, p: u64, v: u64)
    requires
        m.inv(),
        m.map_ok(p, v),
    ensures
        m.map_effect(p, v).phys_bit(page_of(p)),
{
    lemma_map_effect(m, p, v);
}

/// Parent presence: whenever the page-table leaf of `v` is present, the
/// page-directory, PDPT and PML4 entries on its path are present too.
pub proof fn lemma_parent_presence(m: MemView, v: u64)
    requires
        m.inv(),
        entry_present(m.l1[l1_key(v)]),
    ensures
        entry_present(m.l2[l2_key(v)]),
        entry_present(m.l3[l3_key(v)]),
        entry_present(m.l4[l4_key(v)]),
{
    lemma_key_chain(v);
    lemma_const_bits(0);
}

/// Round-trip: after successfully mapping frame `p` at page `v`, every
/// address within that page translates to `p` plus its page offset.
pub proof fn lemma_map_round_trip(m: MemView, p: u64, v: u64, off: u64)
    requires
        m.inv(),
        m.map_ok(p, v),
        off < 4096,
    ensures
        m.map_effect(p, v).translate(((v + off) as u64)) == Some(((p + off) as u64)),
{
    lemma_map_effect(m, p, v);
    lemma_offset_same_page(v, off);
    lemma_frame_or_offset(p, off);
    crate::addr::lemma_flags_of_frame(p);
}

/// Idempotent unmap: after clearing the leaf of `v`, the page is no
/// longer virtually allocated, and a fresh map of any aligned managed
/// frame at `v` is accepted.
pub proof fn lemma_unmap_enables_remap(m: MemView, v: u64, p: u64)
    requires
        m.inv(),
        aligned(v),
        aligned(p),
        p < VMEM_MAX,
    ensures
        !m.unmap_virt_effect(v).mapped(v),
        m.unmap_virt_effect(v).map_ok(p, v),
{
    lemma_unmap_virt_effect(m, v);
}

/// Identity region: after initialisation of a fresh pager, every aligned
/// virtual address below 16 MiB translates to itself.
pub proof fn lemma_init_identity(m: MemView, v: u64)
    requires
        m.pristine(),
        aligned(v),
        v < IDENTITY_END,
    ensures
        m.identity_fill().mapped(v),
        m.identity_fill().translate(v) == Some(v),
{
    lemma_identity_fill(m);
}

} // verus!
