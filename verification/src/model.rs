//! The mathematical model of the pager: each table level as a total map
//! from entry keys to 64-bit entries, the physical bitmap as a sequence of
//! words, and the two most-recently-mapped cursors.  The executable pager
//! is specified entirely through this view, and its state invariant and
//! transition effects are stated and proved here.

use vstd::prelude::*;

use crate::addr::{
    aligned, entry_frame, entry_present, l1_key, l2_key, l3_key, l4_key, lemma_bit_clear,
    lemma_bit_set, lemma_const_bits, lemma_entry_flags, lemma_flags_of_frame, lemma_frame_aligned,
    lemma_key_chain, lemma_low_key_parents, lemma_low_keys, lemma_page_addr, lemma_page_of_bound,
    lemma_page_split, lemma_page_step, page_of,
};
use crate::constants::{IDENTITY_END, MAX_PAGES, PAGE_SIZE, PHYS_MAP_WORDS, VMEM_MAX};

verus! {

/// Entry values a parent table holds: absent, or present + writable.
pub open spec fn flag_entry(e: u64) -> bool {
    e == 0 || e == 3
}

/// Entry values a page-table leaf holds: absent, or an aligned managed
/// frame with flags present + writable.
pub open spec fn leaf_entry(e: u64) -> bool {
    e == 0 || (e & 0xFFF == 3 && entry_frame(e) < VMEM_MAX)
}

/// Bit `pg` of the physical bitmap.
pub open spec fn bit_of(bits: Seq<u64>, pg: u64) -> bool {
    pg < MAX_PAGES && (bits[(pg >> 6) as int] >> (pg & 63)) & 1 == 1
}

/// The bitmap with bit `pg` raised.
pub open spec fn set_bit_in(bits: Seq<u64>, pg: u64) -> Seq<u64> {
    bits.update((pg >> 6) as int, bits[(pg >> 6) as int] | (1u64 << (pg & 63)))
}

/// The bitmap with bit `pg` lowered.
pub open spec fn clear_bit_in(bits: Seq<u64>, pg: u64) -> Seq<u64> {
    bits.update((pg >> 6) as int, bits[(pg >> 6) as int] & !(1u64 << (pg & 63)))
}

/// The state of the pager, as the contracts speak of it.
#[verifier::ext_equal]
pub ghost struct MemView {
    /// PML4 entries, keyed by bits [47:39] of the virtual address.
    pub l4: Map<u64, u64>,
    /// PDPT entries, keyed by bits [47:30].
    pub l3: Map<u64, u64>,
    /// Page-directory entries, keyed by bits [47:21].
    pub l2: Map<u64, u64>,
    /// Page-table leaves, keyed by bits [47:12].
    pub l1: Map<u64, u64>,
    /// The physical bitmap: bit `pg` of it marks page `pg` allocated.
    pub bits: Seq<u64>,
    /// The allocated-pages list; kept by the pager but never filled.
    pub allocated: Seq<Option<u64>>,
    /// Most recently mapped physical page, if any.
    pub last_phys: Option<u64>,
    /// Most recently mapped virtual page, if any.
    pub last_virt: Option<u64>,
}

impl MemView {
    /// The three parent entries that translate `v` are all present.
    pub open spec fn parents_present(self, v: u64) -> bool {
        entry_present(self.l4[l4_key(v)]) && entry_present(self.l3[l3_key(v)]) && entry_present(
            self.l2[l2_key(v)])
    }

    /// `v` is virtually allocated: all four entries on its path are present.
    pub open spec fn mapped(self, v: u64) -> bool {
        self.parents_present(v) && entry_present(self.l1[l1_key(v)])
    }

    /// What the translation walk returns for `v`: the leaf frame with the
    /// page offset of `v`, as soon as the three parent entries are present.
    pub open spec fn translate(self, v: u64) -> Option<u64> {
        if self.parents_present(v) {
            Some(entry_frame(self.l1[l1_key(v)]) | (v & 0xFFF))
        } else {
            None
        }
    }

    /// Bit `pg` of the bitmap is raised.
    pub open spec fn phys_bit(self, pg: u64) -> bool {
        bit_of(self.bits, pg)
    }

    /// `p` counts as physically allocated: the most recently mapped page,
    /// anything in the identity region, or a raised bitmap bit.
    pub open spec fn phys_allocated(self, p: u64) -> bool {
        self.last_phys == Some(p) || p < IDENTITY_END || self.phys_bit(page_of(p))
    }

    /// Structural soundness of one state, except for the bitmap converse.
    pub open spec fn wf_core(self) -> bool {
        &&& self.bits.len() == PHYS_MAP_WORDS
        &&& self.allocated.len() == MAX_PAGES
        &&& forall|k: u64| self.l4.dom().contains(k)
        &&& forall|k: u64| self.l3.dom().contains(k)
        &&& forall|k: u64| self.l2.dom().contains(k)
        &&& forall|k: u64| self.l1.dom().contains(k)
        &&& forall|k: u64| flag_entry(#[trigger] self.l4[k])
        &&& forall|k: u64| flag_entry(#[trigger] self.l3[k])
        &&& forall|k: u64| flag_entry(#[trigger] self.l2[k])
        &&& forall|k: u64| leaf_entry(#[trigger] self.l1[k])
        &&& forall|k: u64|
            entry_present(#[trigger] self.l1[k]) ==> self.l2[k >> 9] == 3 && self.l3[k >> 18] == 3
                && self.l4[k >> 27] == 3
        &&& match self.last_phys {
            Some(p) => aligned(p) && p < VMEM_MAX,
            None => true,
        }
        &&& match self.last_virt {
            Some(v) => aligned(v),
            None => true,
        }
    }

    /// Every raised bitmap bit is accounted for by a present leaf whose
    /// frame is that page.
    pub open spec fn bitmap_sound(self) -> bool {
        forall|pg: u64|
            #[trigger] self.phys_bit(pg) ==> exists|k: u64|
                entry_present(#[trigger] self.l1[k]) && entry_frame(self.l1[k]) == pg * 4096
    }

    /// The state invariant: every reachable pager state satisfies it.
    pub open spec fn inv(self) -> bool {
        self.wf_core() && self.bitmap_sound()
    }

    /// The state a pager starts from: everything absent, clear and empty.
    pub open spec fn pristine(self) -> bool {
        &&& self.bits.len() == PHYS_MAP_WORDS
        &&& self.allocated.len() == MAX_PAGES
        &&& forall|k: u64| self.l4.dom().contains(k)
        &&& forall|k: u64| self.l3.dom().contains(k)
        &&& forall|k: u64| self.l2.dom().contains(k)
        &&& forall|k: u64| self.l1.dom().contains(k)
        &&& forall|k: u64| #[trigger] self.l4[k] == 0
        &&& forall|k: u64| #[trigger] self.l3[k] == 0
        &&& forall|k: u64| #[trigger] self.l2[k] == 0
        &&& forall|k: u64| #[trigger] self.l1[k] == 0
        &&& forall|i: int| 0 <= i < self.bits.len() ==> self.bits[i] == 0
        &&& forall|i: int| 0 <= i < self.allocated.len() ==> self.allocated[i] is None
        &&& self.last_phys is None
        &&& self.last_virt is None
    }

    /// The success condition of the map primitive on given, present inputs.
    pub open spec fn map_ok(self, p: u64, v: u64) -> bool {
        aligned(p) && aligned(v) && p < VMEM_MAX && !self.mapped(v)
    }

    /// The state after mapping frame `p` at `v`: the three parent entries
    /// on the path are made present, the leaf holds `p | 3`, and the
    /// bitmap bit of `p` is raised.
    pub open spec fn map_effect(self, p: u64, v: u64) -> MemView {
        MemView {
            l4: self.l4.insert(l4_key(v), 3),
            l3: self.l3.insert(l3_key(v), 3),
            l2: self.l2.insert(l2_key(v), 3),
            l1: self.l1.insert(l1_key(v), p | 3),
            bits: set_bit_in(self.bits, page_of(p)),
            ..self
        }
    }

    /// The state after clearing the leaf of `v`.
    pub open spec fn unmap_virt_effect(self, v: u64) -> MemView {
        MemView { l1: self.l1.insert(l1_key(v), 0), ..self }
    }

    /// The state after lowering the bitmap bit of `p`.
    pub open spec fn unmap_phys_effect(self, p: u64) -> MemView {
        MemView { bits: clear_bit_in(self.bits, page_of(p)), ..self }
    }

    /// The state with the most-recently-mapped cursors moved.
    pub open spec fn with_cursors(self, p: u64, v: u64) -> MemView {
        MemView { last_phys: Some(p), last_virt: Some(v), ..self }
    }

    /// Where the single-page virtual search starts: the most recently
    /// mapped virtual page, or the end of the identity region.
    pub open spec fn virt_scan_start(self) -> u64 {
        match self.last_virt {
            None => IDENTITY_END,
            Some(v) => v,
        }
    }

    /// Where the single-page physical search starts: the most recently
    /// mapped physical page, or the end of the identity region.
    pub open spec fn phys_scan_start(self) -> u64 {
        match self.last_phys {
            None => IDENTITY_END,
            Some(p) => p,
        }
    }

    /// The first virtual page at or above `a`, in whole-page steps, that
    /// is not mapped; empty when the scan passes the managed limit.
    pub open spec fn find_virt_from(self, a: u64) -> Option<u64>
        decreases VMEM_MAX - a,
    {
        if a > VMEM_MAX - PAGE_SIZE {
            None
        } else if !self.mapped(a) {
            Some(a)
        } else {
            self.find_virt_from((a + PAGE_SIZE) as u64)
        }
    }

    /// The first physical page at or above `a`, in whole-page steps, that
    /// is not counted as allocated; empty past the managed limit.
    pub open spec fn find_phys_from(self, a: u64) -> Option<u64>
        decreases VMEM_MAX - a,
    {
        if a > VMEM_MAX - PAGE_SIZE {
            None
        } else if !self.phys_allocated(a) {
            Some(a)
        } else {
            self.find_phys_from((a + PAGE_SIZE) as u64)
        }
    }

    /// None of the `n` virtual pages starting at `v` is mapped.
    pub open spec fn virt_window_free(self, v: u64, n: u64) -> bool {
        forall|t: u64| t < n ==> !self.mapped(#[trigger] ((v + t * PAGE_SIZE) as u64))
    }

    /// The first start of `n` consecutive unmapped virtual pages at or
    /// above `v`, advancing one page at a time within the managed range.
    pub open spec fn find_contig_virt_from(self, v: u64, n: u64) -> Option<u64>
        decreases VMEM_MAX - v,
    {
        if v + n * PAGE_SIZE > VMEM_MAX {
            None
        } else if self.virt_window_free(v, n) {
            Some(v)
        } else {
            self.find_contig_virt_from((v + PAGE_SIZE) as u64, n)
        }
    }

    /// None of the bitmap bits of the `n` pages starting at page `pg` is
    /// raised.
    pub open spec fn phys_window_free(self, pg: u64, n: u64) -> bool {
        forall|t: u64| t < n ==> !self.phys_bit(#[trigger] ((pg + t) as u64))
    }

    /// The first page number whose following `n` bitmap bits are clear,
    /// where the window must lie within one 64-bit bitmap word.
    pub open spec fn find_contig_phys_from(self, pg: u64, n: u64) -> Option<u64>
        decreases MAX_PAGES - pg,
    {
        if pg >= MAX_PAGES {
            None
        } else if (pg & 63) + n <= 64 && self.phys_window_free(pg, n) {
            Some(((pg * PAGE_SIZE) as u64))
        } else {
            self.find_contig_phys_from((pg + 1) as u64, n)
        }
    }

    /// The map primitive's success condition at the option level: both
    /// addresses given, both aligned, the frame managed, the page unmapped.
    pub open spec fn map_call_ok(self, paddr: Option<u64>, vaddr: Option<u64>) -> bool {
        match (paddr, vaddr) {
            (Some(p), Some(v)) => self.map_ok(p, v),
            _ => false,
        }
    }

    /// The state after the map primitive: changed only on success.
    pub open spec fn map_call_effect(self, paddr: Option<u64>, vaddr: Option<u64>) -> MemView {
        match (paddr, vaddr) {
            (Some(p), Some(v)) => if self.map_ok(p, v) {
                self.map_effect(p, v)
            } else {
                self
            },
            _ => self,
        }
    }

    /// The virtual unmap's success condition: given, aligned and mapped.
    pub open spec fn unmap_virt_ok(self, ptr: Option<u64>) -> bool {
        match ptr {
            Some(v) => aligned(v) && self.mapped(v),
            None => false,
        }
    }

    /// The state after the virtual unmap: changed only on success.
    pub open spec fn unmap_virt_call(self, ptr: Option<u64>) -> MemView {
        match ptr {
            Some(v) => if aligned(v) && self.mapped(v) {
                self.unmap_virt_effect(v)
            } else {
                self
            },
            None => self,
        }
    }

    /// The physical unmap's success condition: given, aligned and counted
    /// as allocated.
    pub open spec fn unmap_phys_ok(self, ptr: Option<u64>) -> bool {
        match ptr {
            Some(p) => aligned(p) && self.phys_allocated(p),
            None => false,
        }
    }

    /// The state after the physical unmap: changed only on success.
    pub open spec fn unmap_phys_call(self, ptr: Option<u64>) -> MemView {
        match ptr {
            Some(p) => if aligned(p) && self.phys_allocated(p) {
                self.unmap_phys_effect(p)
            } else {
                self
            },
            None => self,
        }
    }

    /// Deallocation of one page: translate first, then clear the leaf,
    /// then lower the frame's bitmap bit; the result is the input pointer
    /// when every step succeeded.
    pub open spec fn dealloc_page_spec(self, ptr: Option<u64>) -> (MemView, Option<u64>) {
        match ptr {
            None => (self, None),
            Some(v) => if !aligned(v) || !self.mapped(v) {
                (self, None)
            } else {
                let p = entry_frame(self.l1[l1_key(v)]);
                let s1 = self.unmap_virt_effect(v);
                if self.phys_allocated(p) {
                    (s1.unmap_phys_effect(p), Some(v))
                } else {
                    (s1, None)
                }
            },
        }
    }

    /// Allocation of one page: resolve the virtual page (the given one,
    /// aligned and unmapped, or the first free one), pick the first free
    /// physical page, map it, and move both cursors.  The result is the
    /// physical page.
    pub open spec fn alloc_page_spec(self, ptr: Option<u64>) -> (MemView, Option<u64>) {
        let vopt = match ptr {
            None => self.find_virt_from(self.virt_scan_start()),
            Some(v) => if aligned(v) && !self.mapped(v) {
                Some(v)
            } else {
                None
            },
        };
        match vopt {
            None => (self, None),
            Some(v) => match self.find_phys_from(self.phys_scan_start()) {
                None => (self, None),
                Some(p) => (self.map_effect(p, v).with_cursors(p, v), Some(p)),
            },
        }
    }

    /// The mapping loop of the virtually-contiguous allocator: one fresh
    /// physical page per step, found against the state so far.
    pub open spec fn bulk_valloc(self, v: u64, i: u64, n: u64) -> (MemView, bool)
        decreases n - i,
    {
        if i >= n {
            (self, true)
        } else if v + i * PAGE_SIZE > 0xFFFF_FFFF_FFFF_FFFF {
            (self, false)
        } else {
            match self.find_phys_from(self.phys_scan_start()) {
                None => (self, false),
                Some(p) => {
                    let w = (v + i * PAGE_SIZE) as u64;
                    if self.map_ok(p, w) {
                        self.map_effect(p, w).bulk_valloc(v, (i + 1) as u64, n)
                    } else {
                        (self, false)
                    }
                },
            }
        }
    }

    /// The virtually-contiguous allocator: zero pages fail; the start is
    /// the given aligned address or the first free window; every page of
    /// the window is mapped to an independently found frame.
    pub open spec fn valloc_spec(self, ptr: Option<u64>, n: u64) -> (MemView, Option<u64>) {
        if n == 0 {
            (self, None)
        } else {
            let vopt = match ptr {
                None => self.find_contig_virt_from(IDENTITY_END, n),
                Some(v) => if aligned(v) {
                    Some(v)
                } else {
                    None
                },
            };
            match vopt {
                None => (self, None),
                Some(v) => {
                    let r = self.bulk_valloc(v, 0, n);
                    (r.0, if r.1 {
                        Some(v)
                    } else {
                        None
                    })
                },
            }
        }
    }

    /// The mapping loop of the physically-contiguous allocator: page `i`
    /// of the window maps frame `p + i` pages.
    pub open spec fn bulk_palloc(self, p: u64, v: u64, i: u64, n: u64) -> (MemView, bool)
        decreases n - i,
    {
        if i >= n {
            (self, true)
        } else if v + i * PAGE_SIZE > 0xFFFF_FFFF_FFFF_FFFF || p + i * PAGE_SIZE
            > 0xFFFF_FFFF_FFFF_FFFF {
            (self, false)
        } else {
            let pw = (p + i * PAGE_SIZE) as u64;
            let vw = (v + i * PAGE_SIZE) as u64;
            if self.map_ok(pw, vw) {
                self.map_effect(pw, vw).bulk_palloc(p, v, (i + 1) as u64, n)
            } else {
                (self, false)
            }
        }
    }

    /// The physically-contiguous allocator: resolve the frame run (given
    /// aligned address or first clear bitmap window), then the virtual
    /// run, fail on zero pages, and map the two runs pairwise.
    pub open spec fn palloc_spec(self, phys: Option<u64>, virt: Option<u64>, n: u64) -> (
        MemView,
        Option<u64>,
    ) {
        let popt = match phys {
            None => self.find_contig_phys_from(0, n),
            Some(p) => if aligned(p) {
                Some(p)
            } else {
                None
            },
        };
        match popt {
            None => (self, None),
            Some(p) => {
                let vopt = match virt {
                    None => self.find_contig_virt_from(IDENTITY_END, n),
                    Some(v) => if aligned(v) {
                        Some(v)
                    } else {
                        None
                    },
                };
                match vopt {
                    None => (self, None),
                    Some(v) => if n == 0 {
                        (self, None)
                    } else {
                        let r = self.bulk_palloc(p, v, 0, n);
                        (r.0, if r.1 {
                            Some(v)
                        } else {
                            None
                        })
                    },
                }
            },
        }
    }

    /// The deallocation loop: every page of the window is attempted, and
    /// the whole call succeeds only when each page did.
    pub open spec fn bulk_dealloc(self, v: u64, i: u64, n: u64) -> (MemView, bool)
        decreases n - i,
    {
        if i >= n {
            (self, true)
        } else if v + i * PAGE_SIZE > 0xFFFF_FFFF_FFFF_FFFF {
            (self, false)
        } else {
            let w = (v + i * PAGE_SIZE) as u64;
            let r = self.dealloc_page_spec(Some(w));
            let rest = r.0.bulk_dealloc(v, (i + 1) as u64, n);
            (rest.0, rest.1 && r.1 is Some)
        }
    }

    /// Bulk deallocation: the pointer must be present and aligned; the
    /// result is the pointer only when every page deallocated.
    pub open spec fn dealloc_pages_spec(self, ptr: Option<u64>, n: u64) -> (MemView, Option<u64>) {
        match ptr {
            None => (self, None),
            Some(v) => if !aligned(v) {
                (self, None)
            } else {
                let r = self.bulk_dealloc(v, 0, n);
                (r.0, if r.1 {
                    Some(v)
                } else {
                    None
                })
            },
        }
    }

    /// The state after establishing the low identity mapping in a pristine
    /// pager: the first PML4 and PDPT entries, the first eight directory
    /// entries, and one identity leaf per page of the low 16 MiB.
    pub open spec fn identity_fill(self) -> MemView {
        MemView {
            l4: self.l4.insert(0, 3),
            l3: self.l3.insert(0, 3),
            l2: Map::new(
                |k: u64| true,
                |k: u64|
                    if k < 8 {
                        3u64
                    } else {
                        self.l2[k]
                    },
            ),
            l1: Map::new(
                |k: u64| true,
                |k: u64|
                    if k < 4096 {
                        ((k * 4096) as u64) | 3
                    } else {
                        self.l1[k]
                    },
            ),
            ..self
        }
    }
}

/// Raising bit `pg` raises exactly that bit of the bitmap.
pub proof fn lemma_set_bit(bits: Seq<u64>, pg: u64)
    requires
        bits.len() == PHYS_MAP_WORDS,
        pg < MAX_PAGES,
    ensures
        set_bit_in(bits, pg).len() == PHYS_MAP_WORDS,
        bit_of(set_bit_in(bits, pg), pg),
        forall|pg2: u64| pg2 != pg ==> bit_of(set_bit_in(bits, pg), pg2) == bit_of(bits, pg2),
{
    lemma_page_split(pg);
    lemma_bit_set(bits[(pg >> 6) as int], pg & 63, pg & 63);
    assert forall|pg2: u64| pg2 != pg implies bit_of(set_bit_in(bits, pg), pg2) == bit_of(
        bits,
        pg2,
    ) by {
        if pg2 < MAX_PAGES {
            lemma_page_split(pg2);
            if pg2 >> 6 == pg >> 6 {
                assert((pg2 & 63) != (pg & 63));
                lemma_bit_set(bits[(pg >> 6) as int], pg & 63, pg2 & 63);
            }
        }
    }
}

/// What a successful single-page virtual search yields: an aligned,
/// unmapped page within the managed range, at or above the start.
pub proof fn lemma_find_virt_from(m: MemView, a: u64)
    requires
        aligned(a),
    ensures
        match m.find_virt_from(a) {
            Some(r) => aligned(r) && a <= r <= VMEM_MAX - PAGE_SIZE && !m.mapped(r),
            None => true,
        },
    decreases VMEM_MAX - a,
{
    if a > VMEM_MAX - PAGE_SIZE {
    } else if !m.mapped(a) {
    } else {
        lemma_page_step(a, 1);
        lemma_find_virt_from(m, (a + PAGE_SIZE) as u64);
    }
}

/// What a successful single-page physical search yields: an aligned page
/// within the managed range that is not counted as allocated.
pub proof fn lemma_find_phys_from(m: MemView, a: u64)
    requires
        aligned(a),
    ensures
        match m.find_phys_from(a) {
            Some(r) => aligned(r) && a <= r <= VMEM_MAX - PAGE_SIZE && !m.phys_allocated(r),
            None => true,
        },
    decreases VMEM_MAX - a,
{
    if a > VMEM_MAX - PAGE_SIZE {
    } else if !m.phys_allocated(a) {
    } else {
        lemma_page_step(a, 1);
        lemma_find_phys_from(m, (a + PAGE_SIZE) as u64);
    }
}

/// Moving the cursors to an aligned pair keeps the invariant and changes
/// no table, bitmap bit or translation.
pub proof fn lemma_with_cursors(m: MemView, p: u64, v: u64)
    requires
        m.inv(),
        aligned(p),
        p < VMEM_MAX,
        aligned(v),
    ensures
        m.with_cursors(p, v).inv(),
        m.with_cursors(p, v).last_phys == Some(p),
        m.with_cursors(p, v).last_virt == Some(v),
        forall|w: u64| m.with_cursors(p, v).mapped(w) == m.mapped(w),
        forall|w: u64| m.with_cursors(p, v).translate(w) == m.translate(w),
        forall|pg: u64| m.with_cursors(p, v).phys_bit(pg) == m.phys_bit(pg),
{
    let e = m.with_cursors(p, v);
    assert(e.bitmap_sound()) by {
        assert forall|pg: u64| #[trigger] e.phys_bit(pg) implies exists|k: u64|
            entry_present(#[trigger] e.l1[k]) && entry_frame(e.l1[k]) == pg * 4096 by {
            assert(m.phys_bit(pg));
            let k0 = choose|k: u64|
                entry_present(#[trigger] m.l1[k]) && entry_frame(m.l1[k]) == pg * 4096;
            assert(entry_present(e.l1[k0]) && entry_frame(e.l1[k0]) == pg * 4096);
        }
    }
}

/// No window longer than one bitmap word is ever found.
pub proof fn lemma_contig_phys_none_large(m: MemView, pg: u64, n: u64)
    requires
        n > 64,
    ensures
        m.find_contig_phys_from(pg, n) is None,
    decreases MAX_PAGES - pg,
{
    if pg < MAX_PAGES {
        lemma_contig_phys_none_large(m, (pg + 1) as u64, n);
    }
}

/// A pristine state satisfies the invariant and maps nothing.
pub proof fn lemma_pristine_inv(m: MemView)
    requires
        m.pristine(),
    ensures
        m.inv(),
        forall|w: u64| !m.mapped(w),
        forall|w: u64| m.translate(w) is None,
        forall|pg: u64| !m.phys_bit(pg),
{
    lemma_const_bits(0);
    assert forall|pg: u64| !m.phys_bit(pg) by {
        if pg < MAX_PAGES {
            lemma_page_split(pg);
            lemma_const_bits(pg & 63);
        }
    }
    assert(forall|w: u64| !m.mapped(w));
    assert(forall|w: u64| m.translate(w) is None);
}

/// Mapping a frame under the success condition keeps the invariant, makes
/// exactly the requested page translatable, and touches nothing else.
pub proof fn lemma_map_effect(m: MemView, p: u64, v: u64)
    requires
        m.inv(),
        m.map_ok(p, v),
    ensures
        m.map_effect(p, v).inv(),
        m.map_effect(p, v).mapped(v),
        m.map_effect(p, v).translate(v) == Some(p),
        m.map_effect(p, v).phys_bit(page_of(p)),
        m.map_effect(p, v).l1[l1_key(v)] == (p | 3),
        forall|k: u64| k != l1_key(v) ==> m.map_effect(p, v).l1[k] == m.l1[k],
        forall|k: u64| k != l2_key(v) ==> m.map_effect(p, v).l2[k] == m.l2[k],
        forall|k: u64| k != l3_key(v) ==> m.map_effect(p, v).l3[k] == m.l3[k],
        forall|k: u64| k != l4_key(v) ==> m.map_effect(p, v).l4[k] == m.l4[k],
        forall|pg: u64| pg != page_of(p) ==> m.map_effect(p, v).phys_bit(pg) == m.phys_bit(pg),
        forall|w: u64| m.mapped(w) ==> m.map_effect(p, v).mapped(w),
        forall|w: u64|
            l1_key(w) != l1_key(v) && m.mapped(w) ==> m.map_effect(p, v).translate(w)
                == m.translate(w),
        forall|w: u64| m.map_effect(p, v).mapped(w) ==> m.mapped(w) || l1_key(w) == l1_key(v),
        m.map_effect(p, v).last_phys == m.last_phys,
        m.map_effect(p, v).last_virt == m.last_virt,
        m.map_effect(p, v).allocated == m.allocated,
        m.l1[l1_key(v)] == 0,
{
    let e = m.map_effect(p, v);
    let kk = l1_key(v);
    lemma_page_of_bound(p);
    lemma_set_bit(m.bits, page_of(p));
    lemma_flags_of_frame(p);
    lemma_key_chain(v);
    lemma_const_bits(0);
    lemma_entry_flags(m.l1[kk]);
    // The leaf of `v` was absent: a present leaf would make `v` mapped.
    assert(m.l1[kk] == 0);
    assert(e.wf_core()) by {
        assert(forall|k: u64| flag_entry(#[trigger] e.l4[k]));
        assert(forall|k: u64| flag_entry(#[trigger] e.l3[k]));
        assert(forall|k: u64| flag_entry(#[trigger] e.l2[k]));
        assert(forall|k: u64| leaf_entry(#[trigger] e.l1[k]));
        assert forall|k: u64| entry_present(#[trigger] e.l1[k]) implies e.l2[k >> 9] == 3
            && e.l3[k >> 18] == 3 && e.l4[k >> 27] == 3 by {
            if k != kk {
                assert(entry_present(m.l1[k]));
            }
        }
    }
    assert(e.bitmap_sound()) by {
        assert forall|pg: u64| #[trigger] e.phys_bit(pg) implies exists|k: u64|
            entry_present(#[trigger] e.l1[k]) && entry_frame(e.l1[k]) == pg * 4096 by {
            if pg == page_of(p) {
                assert(entry_present(e.l1[kk]) && entry_frame(e.l1[kk]) == pg * 4096);
            } else {
                assert(m.phys_bit(pg));
                let k0 = choose|k: u64|
                    entry_present(#[trigger] m.l1[k]) && entry_frame(m.l1[k]) == pg * 4096;
                assert(k0 != kk);
                assert(entry_present(e.l1[k0]) && entry_frame(e.l1[k0]) == pg * 4096);
            }
        }
    }
    assert(e.translate(v) == Some(p));
    assert forall|w: u64| m.mapped(w) implies e.mapped(w) by {
        lemma_key_chain(w);
    }
    assert forall|w: u64| l1_key(w) != l1_key(v) && m.mapped(w) implies e.translate(w)
        == m.translate(w) by {
        lemma_key_chain(w);
    }
    assert forall|w: u64| e.mapped(w) implies m.mapped(w) || l1_key(w) == l1_key(v) by {
        if l1_key(w) != kk {
            assert(entry_present(m.l1[l1_key(w)]));
            lemma_key_chain(w);
        }
    }
}

/// Clearing the leaf of `v` unmaps exactly `v`'s page and nothing else.
pub proof fn lemma_unmap_virt_effect(m: MemView, v: u64)
    requires
        m.wf_core(),
    ensures
        m.unmap_virt_effect(v).wf_core(),
        !m.unmap_virt_effect(v).mapped(v),
        m.unmap_virt_effect(v).l1[l1_key(v)] == 0,
        forall|k: u64| k != l1_key(v) ==> m.unmap_virt_effect(v).l1[k] == m.l1[k],
        m.unmap_virt_effect(v).l2 == m.l2,
        m.unmap_virt_effect(v).l3 == m.l3,
        m.unmap_virt_effect(v).l4 == m.l4,
        m.unmap_virt_effect(v).bits == m.bits,
        m.unmap_virt_effect(v).last_phys == m.last_phys,
        m.unmap_virt_effect(v).last_virt == m.last_virt,
        m.unmap_virt_effect(v).allocated == m.allocated,
        forall|w: u64| m.unmap_virt_effect(v).parents_present(w) == m.parents_present(w),
        forall|w: u64|
            l1_key(w) != l1_key(v) ==> m.unmap_virt_effect(v).mapped(w) == m.mapped(w)
                && m.unmap_virt_effect(v).translate(w) == m.translate(w),
        forall|w: u64| l1_key(w) == l1_key(v) ==> !m.unmap_virt_effect(v).mapped(w),
{
    let e = m.unmap_virt_effect(v);
    lemma_const_bits(0);
    assert(e.wf_core()) by {
        assert forall|k: u64| entry_present(#[trigger] e.l1[k]) implies e.l2[k >> 9] == 3
            && e.l3[k >> 18] == 3 && e.l4[k >> 27] == 3 by {
            assert(k != l1_key(v));
            assert(entry_present(m.l1[k]));
        }
    }
}

/// The two halves of a deallocation, proved together: translating first,
/// then clearing the leaf, then lowering the frame's bitmap bit, lands in
/// a state that satisfies the invariant on both the success and the
/// missing-bitmap-bit path.
pub proof fn lemma_dealloc_effect(m: MemView, v: u64)
    requires
        m.inv(),
        aligned(v),
        m.mapped(v),
    ensures
        aligned(entry_frame(m.l1[l1_key(v)])),
        entry_frame(m.l1[l1_key(v)]) < VMEM_MAX,
        page_of(entry_frame(m.l1[l1_key(v)])) < MAX_PAGES,
        m.translate(v) == Some(entry_frame(m.l1[l1_key(v)])),
        m.phys_allocated(entry_frame(m.l1[l1_key(v)])) ==> m.unmap_virt_effect(v)
            .unmap_phys_effect(entry_frame(m.l1[l1_key(v)])).inv(),
        !m.phys_allocated(entry_frame(m.l1[l1_key(v)])) ==> m.unmap_virt_effect(v).inv(),
{
    let kk = l1_key(v);
    let p = entry_frame(m.l1[kk]);
    lemma_frame_aligned(m.l1[kk]);
    lemma_entry_flags(m.l1[kk]);
    lemma_const_bits(0);
    lemma_page_of_bound(p);
    lemma_unmap_virt_effect(m, v);
    let s1 = m.unmap_virt_effect(v);
    assert(m.translate(v) == Some(p));
    // The leaf is present, so its frame is a managed page by the invariant.
    assert(entry_present(m.l1[kk]));
    assert(p < VMEM_MAX);
    if m.phys_allocated(p) {
        let s2 = s1.unmap_phys_effect(p);
        lemma_clear_bit(m.bits, page_of(p));
        assert(s2.wf_core());
        assert(s2.bitmap_sound()) by {
            assert forall|pg: u64| #[trigger] s2.phys_bit(pg) implies exists|k: u64|
                entry_present(#[trigger] s2.l1[k]) && entry_frame(s2.l1[k]) == pg * 4096 by {
                assert(pg != page_of(p));
                assert(m.phys_bit(pg));
                let k0 = choose|k: u64|
                    entry_present(#[trigger] m.l1[k]) && entry_frame(m.l1[k]) == pg * 4096;
                assert(k0 != kk) by {
                    if k0 == kk {
                        // Then the cleared leaf's frame would be page pg,
                        // whose bit was just lowered.
                        lemma_page_addr(pg);
                        assert(pg * 4096 == p);
                        assert(pg == page_of(p));
                    }
                }
                assert(entry_present(s2.l1[k0]) && entry_frame(s2.l1[k0]) == pg * 4096);
            }
        }
    } else {
        assert(s1.bitmap_sound()) by {
            assert forall|pg: u64| #[trigger] s1.phys_bit(pg) implies exists|k: u64|
                entry_present(#[trigger] s1.l1[k]) && entry_frame(s1.l1[k]) == pg * 4096 by {
                assert(m.phys_bit(pg));
                let k0 = choose|k: u64|
                    entry_present(#[trigger] m.l1[k]) && entry_frame(m.l1[k]) == pg * 4096;
                assert(k0 != kk) by {
                    if k0 == kk {
                        lemma_page_addr(pg);
                        assert(pg * 4096 == p);
                        assert(pg == page_of(p));
                        // But the bit of `p`'s page is down: `p` is not
                        // physically allocated.
                        assert(!m.phys_bit(page_of(p)));
                    }
                }
                assert(entry_present(s1.l1[k0]) && entry_frame(s1.l1[k0]) == pg * 4096);
            }
        }
    }
}

/// Filling the identity region of a pristine pager keeps the invariant and
/// makes every aligned low address translate to itself.
pub proof fn lemma_identity_fill(m: MemView)
    requires
        m.pristine(),
    ensures
        m.identity_fill().inv(),
        forall|w: u64|
            aligned(w) && w < IDENTITY_END ==> m.identity_fill().mapped(w) && m.identity_fill()
                .translate(w) == Some(w),
        forall|pg: u64| !m.identity_fill().phys_bit(pg),
        m.identity_fill().last_phys is None,
        m.identity_fill().last_virt is None,
{
    let e = m.identity_fill();
    lemma_const_bits(0);
    assert(e.wf_core()) by {
        assert forall|k: u64| leaf_entry(#[trigger] e.l1[k]) by {
            if k < 4096 {
                lemma_low_key_parents(k);
                lemma_flags_of_frame((k * 4096) as u64);
            }
        }
        assert forall|k: u64| entry_present(#[trigger] e.l1[k]) implies e.l2[k >> 9] == 3
            && e.l3[k >> 18] == 3 && e.l4[k >> 27] == 3 by {
            if k < 4096 {
                lemma_low_key_parents(k);
                lemma_flags_of_frame((k * 4096) as u64);
            }
        }
    }
    assert forall|pg: u64| !e.phys_bit(pg) by {
        if pg < MAX_PAGES {
            lemma_page_split(pg);
            lemma_const_bits(pg & 63);
        }
    }
    assert forall|w: u64| aligned(w) && w < IDENTITY_END implies e.mapped(w) && e.translate(w)
        == Some(w) by {
        lemma_low_keys(w);
        lemma_low_key_parents(w >> 12);
        lemma_flags_of_frame(((w >> 12) * 4096) as u64);
        lemma_page_of_bound(w);
        assert(e.l1[l1_key(w)] == (w | 3));
        assert(entry_frame(w | 3) == w);
        assert(e.translate(w) == Some(w | (w & 0xFFF)));
        assert((w | (w & 0xFFF)) == w);
    }
}

/// Lowering bit `pg` lowers exactly that bit of the bitmap.
pub proof fn lemma_clear_bit(bits: Seq<u64>, pg: u64)
    requires
        bits.len() == PHYS_MAP_WORDS,
        pg < MAX_PAGES,
    ensures
        clear_bit_in(bits, pg).len() == PHYS_MAP_WORDS,
        !bit_of(clear_bit_in(bits, pg), pg),
        forall|pg2: u64| pg2 != pg ==> bit_of(clear_bit_in(bits, pg), pg2) == bit_of(bits, pg2),
{
    lemma_page_split(pg);
    lemma_bit_clear(bits[(pg >> 6) as int], pg & 63, pg & 63);
    assert forall|pg2: u64| pg2 != pg implies bit_of(clear_bit_in(bits, pg), pg2) == bit_of(
        bits,
        pg2,
    ) by {
        if pg2 < MAX_PAGES {
            lemma_page_split(pg2);
            if pg2 >> 6 == pg >> 6 {
                assert((pg2 & 63) != (pg & 63));
                lemma_bit_clear(bits[(pg >> 6) as int], pg & 63, pg2 & 63);
            }
        }
    }
}

} // verus!
