//! Address arithmetic: page alignment, the decomposition of a virtual
//! address into the packed keys of its four table entries, and the bit
//! manipulation facts the pager relies on.
//!
//! A virtual address selects one entry per level through bits [47:39],
//! [47:30], [47:21] and [47:12].  Each slice, kept as one integer, is used
//! as the key of the entry in the sparse table of its level, so the key of
//! an entry's parent is always its own key shifted right by nine bits.

use vstd::prelude::*;

verus! {

/// An address is page-aligned when its low 12 bits are clear.
pub open spec fn aligned(a: u64) -> bool {
    a & 0xFFF == 0
}

/// Bit 0 of a table entry: present.
pub open spec fn entry_present(e: u64) -> bool {
    e & 1 == 1
}

/// The physical frame stored in a table entry: bits [63:12].
pub open spec fn entry_frame(e: u64) -> u64 {
    e & 0xFFFF_FFFF_FFFF_F000
}

/// Key of the PML4 entry that translates `v`.
pub open spec fn l4_key(v: u64) -> u64 {
    (v >> 39) & 0x1FF
}

/// Key of the PDPT entry that translates `v`: PML4 and PDPT indices packed.
pub open spec fn l3_key(v: u64) -> u64 {
    (v >> 30) & 0x3FFFF
}

/// Key of the page-directory entry that translates `v`.
pub open spec fn l2_key(v: u64) -> u64 {
    (v >> 21) & 0x7FF_FFFF
}

/// Key of the page-table leaf that translates `v`.
pub open spec fn l1_key(v: u64) -> u64 {
    (v >> 12) & 0xF_FFFF_FFFF
}

/// Physical page number of a physical address.
pub open spec fn page_of(p: u64) -> u64 {
    p >> 12
}

/// A word of `n` low bits set, the probe mask for a run of `n` free pages.
pub open spec fn low_mask(n: u64) -> u64
    recommends
        n <= 64,
{
    if n >= 64 {
        0xFFFF_FFFF_FFFF_FFFF
    } else {
        ((1u64 << n) - 1) as u64
    }
}

/// Each entry key is bounded by the size of its level.
pub proof fn lemma_key_bounds(v: u64)
    by (bit_vector)
    ensures
        l4_key(v) < 512,
        l3_key(v) < 0x40000,
        l2_key(v) < 0x800_0000,
        l1_key(v) < 0x10_0000_0000,
{
}

/// The key of an entry's parent is the entry's own key shifted by 9.
pub proof fn lemma_key_chain(v: u64)
    by (bit_vector)
    ensures
        l2_key(v) == l1_key(v) >> 9,
        l3_key(v) == l1_key(v) >> 18,
        l4_key(v) == l1_key(v) >> 27,
{
}

/// Writing flags 0x3 below an aligned frame disturbs neither part.
pub proof fn lemma_flags_of_frame(p: u64)
    by (bit_vector)
    requires
        p & 0xFFF == 0,
    ensures
        (p | 3) & 1 == 1,
        (p | 3) & 3 == 3,
        (p | 3) & 0xFFF == 3,
        entry_frame(p | 3) == p,
        p | 3 != 0,
{
}

/// A present entry with clean low flags decomposes into frame and flags.
pub proof fn lemma_frame_or_offset(p: u64, off: u64)
    by (bit_vector)
    requires
        p & 0xFFF == 0,
        off < 4096,
    ensures
        p | off == p + off,
{
}

/// Addresses within one page share all four entry keys.
pub proof fn lemma_offset_same_page(v: u64, off: u64)
    by (bit_vector)
    requires
        v & 0xFFF == 0,
        off < 4096,
    ensures
        v + off <= 0xFFFF_FFFF_FFFF_FFFF,
        l4_key(((v + off) as u64)) == l4_key(v),
        l3_key(((v + off) as u64)) == l3_key(v),
        l2_key(((v + off) as u64)) == l2_key(v),
        l1_key(((v + off) as u64)) == l1_key(v),
        ((v + off) as u64) & 0xFFF == off,
{
}

/// Stepping an aligned address by whole pages keeps it aligned.
pub proof fn lemma_page_step(v: u64, i: u64)
    by (bit_vector)
    requires
        v & 0xFFF == 0,
        v + i * 4096 <= 0xFFFF_FFFF_FFFF_FFFF,
    ensures
        ((v + i * 4096) as u64) & 0xFFF == 0,
{
}

/// Setting bit `b` of a word raises exactly that bit.
pub proof fn lemma_bit_set(w: u64, b: u64, b2: u64)
    by (bit_vector)
    requires
        b < 64,
        b2 < 64,
    ensures
        ((w | (1u64 << b)) >> b) & 1 == 1,
        b2 != b ==> ((w | (1u64 << b)) >> b2) & 1 == (w >> b2) & 1,
{
}

/// Clearing bit `b` of a word lowers exactly that bit.
pub proof fn lemma_bit_clear(w: u64, b: u64, b2: u64)
    by (bit_vector)
    requires
        b < 64,
        b2 < 64,
    ensures
        ((w & !(1u64 << b)) >> b) & 1 == 0,
        b2 != b ==> ((w & !(1u64 << b)) >> b2) & 1 == (w >> b2) & 1,
{
}

/// A page number splits into a bitmap word index and a bit offset.
pub proof fn lemma_page_split(pg: u64)
    by (bit_vector)
    ensures
        pg & 63 < 64,
        pg < 0x20_0000 ==> pg >> 6 < 0x8000,
        ((pg >> 6) * 64) + (pg & 63) == pg,
{
}

/// A word index and bit offset recombine into the page number they came from.
pub proof fn lemma_page_join(i: u64, j: u64)
    by (bit_vector)
    requires
        i < 0x8000,
        j < 64,
    ensures
        ((i * 64 + j) as u64) >> 6 == i,
        ((i * 64 + j) as u64) & 63 == j,
        i * 64 + j < 0x20_0000,
{
}

/// The address of a managed page number is aligned and below the limit.
pub proof fn lemma_page_addr(pg: u64)
    by (bit_vector)
    requires
        pg < 0x20_0000,
    ensures
        ((pg * 4096) as u64) & 0xFFF == 0,
        ((pg * 4096) as u64) >> 12 == pg,
        ((pg * 4096) as u64) < 0x2_0000_0000,
{
}

/// Page numbers of managed addresses are bounded, and aligned addresses
/// are recovered from their page number.
pub proof fn lemma_page_of_bound(p: u64)
    by (bit_vector)
    ensures
        p < 0x2_0000_0000 ==> p >> 12 < 0x20_0000,
        p & 0xFFF == 0 && (p >> 12) < 0x20_0000 ==> p < 0x2_0000_0000,
        p & 0xFFF == 0 ==> (p >> 12) * 4096 == p,
        p | 0 == p,
{
}

/// The frame field of any entry is page-aligned.
pub proof fn lemma_frame_aligned(e: u64)
    by (bit_vector)
    ensures
        entry_frame(e) & 0xFFF == 0,
{
}

/// Constant bit facts: the zero entry is absent everywhere, flags 0x3 are
/// present.
pub proof fn lemma_const_bits(b: u64)
    by (bit_vector)
    ensures
        0u64 & 1 == 0,
        3u64 & 1 == 1,
        0u64 & 3 == 0,
        3u64 & 3 == 3,
        (0u64 >> b) & 1 == 0,
        0x100_0000u64 & 0xFFF == 0,
        b & 0 == 0,
{
}

/// An entry whose low flag bits read 0x3 is present; the present bit of
/// any entry reads 0 or 1.
pub proof fn lemma_entry_flags(e: u64)
    by (bit_vector)
    ensures
        e & 0xFFF == 3 ==> e & 1 == 1,
        e & 0xFFF == 3 ==> e & 3 == 3,
        e & 0xFFF == 3 ==> e != 0,
        e & 0xFFF == 3 ==> e == (e & 0xFFFF_FFFF_FFFF_F000) | 3,
        e & 1 == 0 || e & 1 == 1,
        e & 3 == 3 ==> e & 1 == 1,
{
}

/// Growing the probe mask by one bit.
pub proof fn lemma_mask_build(i: u64)
    by (bit_vector)
    requires
        i < 64,
    ensures
        low_mask(i) | (1u64 << i) == low_mask(((i + 1) as u64)),
        low_mask(0) == 0,
{
}

/// Peeling the lowest bit off a masked window.
proof fn lemma_mask_peel(w: u64, j: u64, n: u64)
    by (bit_vector)
    requires
        1 <= n <= 64,
        j + n <= 64,
    ensures
        ((w >> j) & low_mask(n) == 0) <==> ((w >> j) & 1 == 0 && (w >> ((j + 1) as u64))
            & low_mask(((n - 1) as u64)) == 0),
        n == 1 ==> (((w >> j) & low_mask(n) == 0) <==> (w >> j) & 1 == 0),
{
}

/// The masked window of a word is clear exactly when each of its bits is.
pub proof fn lemma_window_bits(w: u64, j: u64, n: u64)
    requires
        1 <= n <= 64,
        j + n <= 64,
    ensures
        ((w >> j) & low_mask(n) == 0) <==> (forall|b: u64| j <= b < j + n ==> (w >> b) & 1 == 0),
    decreases n,
{
    lemma_mask_peel(w, j, n);
    if n > 1 {
        lemma_window_bits(w, (j + 1) as u64, (n - 1) as u64);
        assert(((w >> j) & low_mask(n) == 0) <==> (forall|b: u64|
            j <= b < j + n ==> (w >> b) & 1 == 0)) by {
            if (w >> j) & 1 == 0 && (forall|b: u64|
                j + 1 <= b < j + n ==> (w >> b) & 1 == 0) {
                assert forall|b: u64| j <= b < j + n implies (w >> b) & 1 == 0 by {
                    if b != j {
                        assert(j + 1 <= b < j + n);
                    }
                }
            }
        }
    } else {
        assert(((w >> j) & low_mask(n) == 0) <==> (forall|b: u64|
            j <= b < j + n ==> (w >> b) & 1 == 0)) by {
            if (w >> j) & 1 == 0 {
                assert forall|b: u64| j <= b < j + n implies (w >> b) & 1 == 0 by {
                    assert(b == j);
                }
            }
        }
    }
}

/// Entry keys of an aligned address in the identity region.
pub proof fn lemma_low_keys(v: u64)
    by (bit_vector)
    requires
        v & 0xFFF == 0,
        v < 0x100_0000,
    ensures
        l1_key(v) == v >> 12,
        v >> 12 < 4096,
        (v >> 12) * 4096 == v,
        l2_key(v) == v >> 21,
        v >> 21 < 8,
        l3_key(v) == 0,
        l4_key(v) == 0,
{
}

/// Parent keys of a leaf key in the identity region.
pub proof fn lemma_low_key_parents(k: u64)
    by (bit_vector)
    requires
        k < 4096,
    ensures
        k >> 9 < 8,
        k >> 18 == 0,
        k >> 27 == 0,
        ((k * 4096) as u64) < 0x100_0000,
        ((k * 4096) as u64) & 0xFFF == 0,
        l1_key(((k * 4096) as u64)) == k,
{
}

} // verus!
