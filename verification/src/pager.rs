//! The pager: an x86-64 four-level page-map tree held in sparse tables,
//! a physical-page bitmap, and two most-recently-mapped cursors.
//!
//! Parent entries carry the flag bits the walk reads; where the entries of
//! a running kernel would also carry the physical address of the child
//! table, the embedder installs those when it loads the tree, since the
//! placement of the storage is outside the pager's own state.

use vstd::prelude::*;

use crate::addr::{
    aligned, entry_frame, l1_key, l2_key, l3_key, l4_key, lemma_const_bits,
    lemma_entry_flags, lemma_key_bounds, lemma_mask_build, lemma_page_join, lemma_page_of_bound,
    lemma_page_split, lemma_window_bits, low_mask,
};
use crate::constants::{IDENTITY_END, MAX_PAGES, PAGE_SIZE, PHYS_MAP_WORDS, VMEM_MAX};
use crate::model::MemView;
use crate::model::{
    lemma_contig_phys_none_large, lemma_dealloc_effect, lemma_find_phys_from,
    lemma_find_virt_from, lemma_identity_fill, lemma_map_effect, lemma_pristine_inv,
    lemma_unmap_virt_effect, lemma_with_cursors,
};
use crate::page_map::PageMap;

verus! {

/// A vector of `n` zero words.
fn zero_words(n: usize) -> (r: Vec<u64>)
    ensures
        r@.len() == n,
        forall|i: int| 0 <= i < n ==> r@[i] == 0u64,
{
    let mut r: Vec<u64> = Vec::new();
    let mut i: usize = 0;
    while i < n
        invariant
            i <= n,
            r@.len() == i,
            forall|j: int| 0 <= j < i ==> r@[j] == 0u64,
        decreases n - i,
    {
        r.push(0);
        i = i + 1;
    }
    r
}

/// A vector of `n` empty slots.
fn none_entries(n: usize) -> (r: Vec<Option<u64>>)
    ensures
        r@.len() == n,
        forall|i: int| 0 <= i < n ==> r@[i] is None,
{
    let mut r: Vec<Option<u64>> = Vec::new();
    let mut i: usize = 0;
    while i < n
        invariant
            i <= n,
            r@.len() == i,
            forall|j: int| 0 <= j < i ==> r@[j] is None,
        decreases n - i,
    {
        r.push(None);
        i = i + 1;
    }
    r
}

/// How many whole pages cover `bytes` bytes.
pub fn pages_for_bytes(bytes: u64) -> (n: u64)
    ensures
        n == (bytes + PAGE_SIZE - 1) / (PAGE_SIZE as int),
{
    bytes / PAGE_SIZE + if bytes % PAGE_SIZE != 0 {
        1
    } else {
        0
    }
}

/// The pager: page-map tree, physical bitmap and cursors.
pub struct Pager {
    pml4: Vec<u64>,
    pdpt: PageMap,
    pd: PageMap,
    pt: PageMap,
    allocated_pages: Vec<Option<u64>>,
    phys_map: Vec<u64>,
    last_mapped_phys_addr: Option<u64>,
    last_mapped_virt_addr: Option<u64>,
}

impl View for Pager {
    type V = MemView;

    closed spec fn view(&self) -> MemView {
        MemView {
            l4: Map::new(
                |k: u64| true,
                |k: u64|
                    if k < 512 {
                        self.pml4@[k as int]
                    } else {
                        0u64
                    },
            ),
            l3: Map::new(|k: u64| true, |k: u64| self.pdpt.spec_get(k)),
            l2: Map::new(|k: u64| true, |k: u64| self.pd.spec_get(k)),
            l1: Map::new(|k: u64| true, |k: u64| self.pt.spec_get(k)),
            bits: self.phys_map@,
            allocated: self.allocated_pages@,
            last_phys: self.last_mapped_phys_addr,
            last_virt: self.last_mapped_virt_addr,
        }
    }
}

impl Pager {
    /// The tables are well-formed and the state satisfies the invariant.
    pub open spec fn inv(self) -> bool {
        self.wf() && self@.inv()
    }

    /// Representation well-formedness of the backing containers.
    pub closed spec fn wf(self) -> bool {
        self.pml4@.len() == 512 && self.pdpt.wf() && self.pd.wf() && self.pt.wf()
    }

    /// A pager with every table entry absent, the bitmap clear and both
    /// cursors empty.
    pub fn new() -> (r: Pager)
        ensures
            r.inv(),
            r@.pristine(),
    {
        let r = Pager {
            pml4: zero_words(512),
            pdpt: PageMap::new(),
            pd: PageMap::new(),
            pt: PageMap::new(),
            allocated_pages: none_entries(MAX_PAGES as usize),
            phys_map: zero_words(PHYS_MAP_WORDS as usize),
            last_mapped_phys_addr: None,
            last_mapped_virt_addr: None,
        };
        proof {
            assert(r@.pristine());
            lemma_pristine_inv(r@);
        }
        r
    }

    /// Most recently mapped physical page.
    pub fn last_mapped_phys_addr(&self) -> (r: Option<u64>)
        ensures
            r == self@.last_phys,
    {
        self.last_mapped_phys_addr
    }

    /// Most recently mapped virtual page.
    pub fn last_mapped_virt_addr(&self) -> (r: Option<u64>)
        ensures
            r == self@.last_virt,
    {
        self.last_mapped_virt_addr
    }

    /// The allocated-pages list.
    pub fn allocated_pages(&self) -> (r: &Vec<Option<u64>>)
        ensures
            r@ == self@.allocated,
    {
        &self.allocated_pages
    }

    /// The raw PML4 table.
    pub fn pml4t(&self) -> (r: &Vec<u64>)
        requires
            self.inv(),
        ensures
            r@.len() == 512,
            forall|k: u64| k < 512 ==> r@[k as int] == self@.l4[k],
    {
        &self.pml4
    }

    /// Whether `ptr` lies within allocated virtual memory.  An empty input
    /// reads as "already taken" so callers short-circuit on it.
    pub fn is_virtually_allocated(&self, ptr: Option<u64>) -> (r: bool)
        requires
            self.inv(),
        ensures
            r == match ptr {
                None => true,
                Some(v) => self@.mapped(v),
            },
    {
        let v = match ptr {
            None => { return true },
            Some(v) => v,
        };
        proof {
            lemma_key_bounds(v);
            lemma_entry_flags(self@.l4[l4_key(v)]);
            lemma_entry_flags(self@.l3[l3_key(v)]);
            lemma_entry_flags(self@.l2[l2_key(v)]);
            lemma_entry_flags(self@.l1[l1_key(v)]);
        }
        let pml4t_index = (v >> 39) & 0x1FF;
        let pdpt_index = (v >> 30) & 0x3FFFF;
        let pdt_index = (v >> 21) & 0x7FF_FFFF;
        let pt_index = (v >> 12) & 0xF_FFFF_FFFF;

        // Bail if entries aren't marked present (can't be allocated)
        if self.pml4[pml4t_index as usize] & 0x01 == 0x00 {
            return false;
        }
        if self.pdpt.get(pdpt_index) & 0x01 == 0x00 {
            return false;
        }
        if self.pd.get(pdt_index) & 0x01 == 0x00 {
            return false;
        }
        self.pt.get(pt_index) & 0x01 != 0x00
    }

    /// Whether `ptr` lies within allocated physical memory.  An empty input
    /// reads as "already taken"; the identity region and the most recently
    /// mapped page count as allocated without consulting the bitmap.
    pub fn is_physically_allocated(&self, ptr: Option<u64>) -> (r: bool)
        requires
            self@.wf_core(),
        ensures
            r == match ptr {
                None => true,
                Some(p) => self@.phys_allocated(p),
            },
    {
        let p = match ptr {
            None => { return true },
            Some(p) => p,
        };
        match self.last_mapped_phys_addr {
            Some(lp) => if lp == p {
                return true;
            },
            None => {},
        }
        // Addresses below 16 MiB are identity-mapped by construction.
        if p < IDENTITY_END {
            return true;
        }
        let pg = p >> 12;
        proof {
            lemma_page_split(pg);
            lemma_entry_flags(0);
        }
        if pg >= MAX_PAGES {
            return false;
        }
        (self.phys_map[(pg >> 6) as usize] >> (pg & 63)) & 1 == 1
    }

    /// Identity-map the low 16 MiB of a fresh pager: the first PML4 and
    /// PDPT entries, the first eight page-directory entries, and one
    /// identity leaf for each page of the region.
    pub fn init(&mut self)
        requires
            old(self).inv(),
            old(self)@.pristine(),
        ensures
            final(self).inv(),
            final(self)@ == old(self)@.identity_fill(),
    {
        proof {
            assert forall|k: u64| old(self).pdpt.spec_get(k) == 0 by {
                assert(old(self)@.l3[k] == 0);
            }
            assert forall|k: u64| old(self).pd.spec_get(k) == 0 by {
                assert(old(self)@.l2[k] == 0);
            }
            assert forall|k: u64| old(self).pt.spec_get(k) == 0 by {
                assert(old(self)@.l1[k] == 0);
            }
        }
        self.pml4[0] = 0x03;
        self.pdpt.set(0, 0x03);
        let mut i: u64 = 0;
        while i < 8
            invariant
                self.wf(),
                i <= 8,
                self.pml4@ == old(self).pml4@.update(0, 3u64),
                self.pdpt.spec_get(0) == 3,
                forall|k: u64| k != 0 ==> self.pdpt.spec_get(k) == 0,
                forall|k: u64| k < i ==> self.pd.spec_get(k) == 3,
                forall|k: u64| k >= i ==> self.pd.spec_get(k) == 0,
                forall|k: u64| self.pt.spec_get(k) == 0,
                self.phys_map@ == old(self).phys_map@,
                self.allocated_pages@ == old(self).allocated_pages@,
                self.last_mapped_phys_addr == old(self).last_mapped_phys_addr,
                self.last_mapped_virt_addr == old(self).last_mapped_virt_addr,
            decreases 8 - i,
        {
            self.pd.set(i, 0x03);
            i = i + 1;
        }
        let mut k: u64 = 0;
        while k < 4096
            invariant
                self.wf(),
                k <= 4096,
                self.pml4@ == old(self).pml4@.update(0, 3u64),
                self.pdpt.spec_get(0) == 3,
                forall|k2: u64| k2 != 0 ==> self.pdpt.spec_get(k2) == 0,
                forall|k2: u64| k2 < 8 ==> self.pd.spec_get(k2) == 3,
                forall|k2: u64| k2 >= 8 ==> self.pd.spec_get(k2) == 0,
                forall|k2: u64| k2 < k ==> self.pt.spec_get(k2) == ((k2 * 4096) as u64) | 3,
                forall|k2: u64| k2 >= k ==> self.pt.spec_get(k2) == 0,
                self.phys_map@ == old(self).phys_map@,
                self.allocated_pages@ == old(self).allocated_pages@,
                self.last_mapped_phys_addr == old(self).last_mapped_phys_addr,
                self.last_mapped_virt_addr == old(self).last_mapped_virt_addr,
            decreases 4096 - k,
        {
            self.pt.set(k, (k * 4096) | 0x03);
            k = k + 1;
        }
        proof {
            let pre = old(self)@;
            let post = self@;
            let tgt = pre.identity_fill();
            assert(post.l4 =~= tgt.l4);
            assert(post.l3 =~= tgt.l3);
            assert(post.l2 =~= tgt.l2);
            assert(post.l1 =~= tgt.l1);
            assert(post =~= tgt);
            lemma_identity_fill(pre);
        }
    }

    /// Map the given physical frame at the given virtual page.  Both
    /// addresses must be present, page-aligned, the frame within the
    /// managed range and the page not yet mapped; otherwise nothing
    /// changes and the result is empty.
    pub fn map_phys_addr_to_virt_addr(&mut self, paddr: Option<u64>, vaddr: Option<u64>) -> (r:
        Option<u64>)
        requires
            old(self).inv(),
        ensures
            final(self).inv(),
            final(self)@ == old(self)@.map_call_effect(paddr, vaddr),
            r == if old(self)@.map_call_ok(paddr, vaddr) {
                vaddr
            } else {
                None::<u64>
            },
    {
        let v = match vaddr {
            None => { return None },
            Some(v) => v,
        };
        let p = match paddr {
            None => { return None },
            Some(p) => p,
        };
        // Can't map unaligned addresses
        if v & 0xFFF != 0x000 {
            return None;
        }
        if p & 0xFFF != 0x000 {
            return None;
        }
        // Can't map an address that is already allocated
        if self.is_virtually_allocated(vaddr) {
            return None;
        }
        // The frame must have a slot in the physical bitmap
        if p >= VMEM_MAX {
            return None;
        }
        proof {
            lemma_key_bounds(v);
            lemma_map_effect(old(self)@, p, v);
            lemma_entry_flags(self@.l4[l4_key(v)]);
            lemma_entry_flags(self@.l3[l3_key(v)]);
            lemma_entry_flags(self@.l2[l2_key(v)]);
            lemma_entry_flags(self@.l1[l1_key(v)]);
            lemma_const_bits(0);
        }
        let pml4t_index = (v >> 39) & 0x1FF;
        let pdpt_index = (v >> 30) & 0x3FFFF;
        let pdt_index = (v >> 21) & 0x7FF_FFFF;
        let pt_index = (v >> 12) & 0xF_FFFF_FFFF;

        // Mark entries as present if not already marked
        if self.pml4[pml4t_index as usize] & 0x03 != 0x03 {
            self.pml4[pml4t_index as usize] = 0x03;
        }
        if self.pdpt.get(pdpt_index) & 0x03 != 0x03 {
            self.pdpt.set(pdpt_index, 0x03);
        }
        if self.pd.get(pdt_index) & 0x03 != 0x03 {
            self.pd.set(pdt_index, 0x03);
        }
        // Install the leaf
        if self.pt.get(pt_index) & 0x03 != 0x03 {
            self.pt.set(pt_index, p | 0x03);
        }
        // Mark the frame in the physical bitmap
        let pg = p >> 12;
        proof {
            lemma_page_of_bound(p);
            lemma_page_split(pg);
        }
        let wi = pg >> 6;
        self.phys_map[wi as usize] = self.phys_map[wi as usize] | (1u64 << (pg & 63));
        proof {
            let pre = old(self)@;
            let post = self@;
            let tgt = pre.map_effect(p, v);
            assert(post.l4 =~= tgt.l4);
            assert(post.l3 =~= tgt.l3);
            assert(post.l2 =~= tgt.l2);
            assert(post.l1 =~= tgt.l1);
            assert(post.bits =~= tgt.bits);
            assert(post =~= tgt);
        }
        vaddr
    }

    /// Clear the page-table leaf of `ptr`: it must be present, aligned
    /// and currently mapped.
    fn unmap_virt_addr(&mut self, ptr: Option<u64>) -> (r: Option<u64>)
        requires
            old(self).inv(),
        ensures
            final(self).wf(),
            final(self)@.wf_core(),
            final(self)@ == old(self)@.unmap_virt_call(ptr),
            r == if old(self)@.unmap_virt_ok(ptr) {
                ptr
            } else {
                None::<u64>
            },
    {
        let v = match ptr {
            None => { return None },
            Some(v) => v,
        };
        if v & 0xFFF != 0x000 {
            return None;
        }
        if !self.is_virtually_allocated(ptr) {
            return None;
        }
        proof {
            lemma_unmap_virt_effect(old(self)@, v);
        }
        let pt_index = (v >> 12) & 0xF_FFFF_FFFF;
        self.pt.set(pt_index, 0x00);
        proof {
            let pre = old(self)@;
            let post = self@;
            let tgt = pre.unmap_virt_effect(v);
            assert(self.pt.spec_get(l1_key(v)) == 0);
            assert forall|k: u64| post.l1[k] == tgt.l1[k] by {
                if k != l1_key(v) {
                    assert(self.pt.spec_get(k) == old(self).pt.spec_get(k));
                }
            }
            assert forall|k: u64| tgt.l1.dom().contains(k) by {
                assert(pre.l1.dom().contains(k));
            }
            assert(post.l1.dom() =~= tgt.l1.dom());
            assert(post.l1 =~= tgt.l1);
            assert(post =~= tgt);
        }
        ptr
    }

    /// Lower the bitmap bit of `ptr`: it must be present, aligned and
    /// currently counted as allocated.
    fn unmap_phys_addr(&mut self, ptr: Option<u64>) -> (r: Option<u64>)
        requires
            old(self).wf(),
            old(self)@.wf_core(),
        ensures
            final(self).wf(),
            final(self)@.wf_core(),
            final(self)@ == old(self)@.unmap_phys_call(ptr),
            r == if old(self)@.unmap_phys_ok(ptr) {
                ptr
            } else {
                None::<u64>
            },
    {
        let p = match ptr {
            None => { return None },
            Some(p) => p,
        };
        if p & 0xFFF != 0x000 {
            return None;
        }
        if !self.is_physically_allocated(ptr) {
            return None;
        }
        let pg = p >> 12;
        proof {
            lemma_page_of_bound(p);
            lemma_page_split(pg);
            assert(pg < MAX_PAGES);
        }
        let wi = pg >> 6;
        self.phys_map[wi as usize] = self.phys_map[wi as usize] & !(1u64 << (pg & 63));
        proof {
            let pre = old(self)@;
            let post = self@;
            let tgt = pre.unmap_phys_effect(p);
            assert(post.bits =~= tgt.bits);
            assert(post =~= tgt);
        }
        ptr
    }

    /// Deallocate the page at `ptr`: translate it, clear its leaf, and
    /// release its frame in the bitmap.  Empty when `ptr` is missing,
    /// unaligned, not mapped, or its frame is not counted as allocated;
    /// in the last case the leaf is still cleared.
    pub fn deallocate_page(&mut self, ptr: Option<u64>) -> (r: Option<u64>)
        requires
            old(self).inv(),
        ensures
            final(self).inv(),
            final(self)@ == old(self)@.dealloc_page_spec(ptr).0,
            r == old(self)@.dealloc_page_spec(ptr).1,
    {
        let v = match ptr {
            None => { return None },
            Some(v) => v,
        };
        if v & 0xFFF != 0x000 {
            return None;
        }
        if !self.is_virtually_allocated(ptr) {
            return None;
        }
        proof {
            lemma_dealloc_effect(old(self)@, v);
            lemma_page_of_bound(entry_frame(old(self)@.l1[l1_key(v)]));
        }
        // Translate before the leaf is cleared
        let p = match self.as_phys_addr(ptr) {
            None => { return None },
            Some(p) => p,
        };
        let rv = self.unmap_virt_addr(ptr);
        if self.unmap_phys_addr(Some(p)).is_none() {
            return None;
        }
        match rv {
            None => None,
            Some(_) => ptr,
        }
    }

    /// Translate a virtual address: empty if any parent entry on its path
    /// is absent, otherwise the leaf frame with the page offset of `ptr`.
    pub fn as_phys_addr(&self, ptr: Option<u64>) -> (r: Option<u64>)
        requires
            self.inv(),
        ensures
            r == match ptr {
                None => None::<u64>,
                Some(v) => self@.translate(v),
            },
    {
        let v = match ptr {
            None => { return None },
            Some(v) => v,
        };
        proof {
            lemma_key_bounds(v);
            lemma_entry_flags(self@.l4[l4_key(v)]);
            lemma_entry_flags(self@.l3[l3_key(v)]);
            lemma_entry_flags(self@.l2[l2_key(v)]);
        }
        let pml4t_index = (v >> 39) & 0x1FF;
        let pdpt_index = (v >> 30) & 0x3FFFF;
        let pdt_index = (v >> 21) & 0x7FF_FFFF;
        let pt_index = (v >> 12) & 0xF_FFFF_FFFF;
        let offset = v & 0xFFF;

        if self.pml4[pml4t_index as usize] & 0x01 == 0x00 {
            return None;
        }
        if self.pdpt.get(pdpt_index) & 0x01 == 0x00 {
            return None;
        }
        if self.pd.get(pdt_index) & 0x01 == 0x00 {
            return None;
        }
        Some((self.pt.get(pt_index) & 0xFFFF_FFFF_FFFF_F000) | offset)
    }

    /// Allocate one page, at the given virtual address (which must be
    /// aligned and unmapped) or at the first free one, backed by the first
    /// free physical page.  Returns the physical address of the new page,
    /// and moves both cursors.
    pub fn allocate_page(&mut self, ptr: Option<u64>) -> (r: Option<u64>)
        requires
            old(self).inv(),
        ensures
            final(self).inv(),
            final(self)@ == old(self)@.alloc_page_spec(ptr).0,
            r == old(self)@.alloc_page_spec(ptr).1,
    {
        proof {
            lemma_const_bits(0);
        }
        let vaddr: u64 = match ptr {
            None => match self.find_free_virtual_page() {
                None => { return None },
                Some(v) => v,
            },
            Some(v) => {
                if v & 0xFFF != 0 {
                    return None;
                }
                if self.is_virtually_allocated(ptr) {
                    return None;
                }
                v
            },
        };
        proof {
            if ptr is None {
                lemma_find_virt_from(old(self)@, old(self)@.virt_scan_start());
            }
        }
        let paddr = match self.find_free_physical_page() {
            None => { return None },
            Some(p) => p,
        };
        proof {
            lemma_find_phys_from(old(self)@, old(self)@.phys_scan_start());
            assert(old(self)@.map_ok(paddr, vaddr));
        }
        match self.map_phys_addr_to_virt_addr(Some(paddr), Some(vaddr)) {
            Some(_p) => {
                self.last_mapped_phys_addr = Some(paddr);
                self.last_mapped_virt_addr = Some(vaddr);
                proof {
                    lemma_map_effect(old(self)@, paddr, vaddr);
                    lemma_with_cursors(old(self)@.map_effect(paddr, vaddr), paddr, vaddr);
                    assert(self@ =~= old(self)@.map_effect(paddr, vaddr).with_cursors(
                        paddr,
                        vaddr,
                    ));
                }
                Some(paddr)
            },
            None => None,
        }
    }

    /// Allocate virtually contiguous pages: an alias of
    /// `allocate_virtually_contiguous_pages`.
    pub fn allocate_pages(&mut self, ptr: Option<u64>, num_pages: usize) -> (r: Option<u64>)
        requires
            old(self).inv(),
        ensures
            final(self).inv(),
            final(self)@ == old(self)@.valloc_spec(ptr, num_pages as u64).0,
            r == old(self)@.valloc_spec(ptr, num_pages as u64).1,
    {
        self.allocate_virtually_contiguous_pages(ptr, num_pages)
    }

    /// Allocate `num_pages` virtually contiguous pages at the given
    /// aligned start (or at the first free window), each backed by an
    /// independently found free physical page.  Returns the virtual
    /// start; on a mid-way failure the pages already mapped remain.
    #[verifier::loop_isolation(false)]
    pub fn allocate_virtually_contiguous_pages(&mut self, ptr: Option<u64>, num_pages: usize) -> (r:
        Option<u64>)
        requires
            old(self).inv(),
        ensures
            final(self).inv(),
            final(self)@ == old(self)@.valloc_spec(ptr, num_pages as u64).0,
            r == old(self)@.valloc_spec(ptr, num_pages as u64).1,
    {
        if num_pages == 0 {
            return None;
        }
        let p: u64 = match ptr {
            None => match self.find_free_contiguous_virtual_pages(num_pages) {
                None => { return None },
                Some(v) => v,
            },
            Some(v) => {
                if v & 0xFFF != 0 {
                    return None;
                }
                v
            },
        };
        let mut i: usize = 0;
        let mut w: u64 = p;
        while i < num_pages
            invariant
                self.inv(),
                i <= num_pages,
                num_pages > 0,
                i < num_pages ==> p + (i as int) * PAGE_SIZE <= 0xFFFF_FFFF_FFFF_FFFF && w == ((p
                    + (i as int) * PAGE_SIZE) as u64),
                old(self)@.bulk_valloc(p, 0, num_pages as u64) == self@.bulk_valloc(
                    p,
                    i as u64,
                    num_pages as u64,
                ),
            decreases num_pages - i,
        {
            let ghost m0 = self@;
            let ghost nn = num_pages as u64;
            let paddr = match self.find_free_physical_page() {
                None => {
                    proof {
                        assert(m0.bulk_valloc(p, i as u64, nn) == (m0, false));
                    }
                    return None;
                },
                Some(x) => x,
            };
            match self.map_phys_addr_to_virt_addr(Some(paddr), Some(w)) {
                None => {
                    proof {
                        assert(m0.bulk_valloc(p, i as u64, nn) == (m0, false));
                    }
                    return None;
                },
                Some(_) => {},
            }
            proof {
                assert(m0.bulk_valloc(p, i as u64, nn) == self@.bulk_valloc(
                    p,
                    ((i + 1) as u64),
                    nn,
                ));
            }
            i = i + 1;
            if i < num_pages {
                if w > 0xFFFF_FFFF_FFFF_FFFF - PAGE_SIZE {
                    proof {
                        assert(self@.bulk_valloc(p, i as u64, nn) == (self@, false));
                    }
                    return None;
                }
                w = w + PAGE_SIZE;
            }
        }
        Some(p)
    }

    /// Allocate `num_pages` pages that are both physically and virtually
    /// contiguous, at the given aligned addresses or at found free runs,
    /// mapping the two runs pairwise.  Returns the virtual start; on a
    /// mid-way failure the pages already mapped remain.
    #[verifier::loop_isolation(false)]
    pub fn allocate_physically_contiguous_pages(
        &mut self,
        paddr: Option<u64>,
        vaddr: Option<u64>,
        num_pages: usize,
    ) -> (r: Option<u64>)
        requires
            old(self).inv(),
        ensures
            final(self).inv(),
            final(self)@ == old(self)@.palloc_spec(paddr, vaddr, num_pages as u64).0,
            r == old(self)@.palloc_spec(paddr, vaddr, num_pages as u64).1,
    {
        let p: u64 = match paddr {
            None => match self.find_free_contiguous_physical_pages(num_pages) {
                None => { return None },
                Some(x) => x,
            },
            Some(x) => {
                if x & 0xFFF != 0 {
                    return None;
                }
                x
            },
        };
        let v: u64 = match vaddr {
            None => match self.find_free_contiguous_virtual_pages(num_pages) {
                None => { return None },
                Some(x) => x,
            },
            Some(x) => {
                if x & 0xFFF != 0 {
                    return None;
                }
                x
            },
        };
        if num_pages == 0 {
            return None;
        }
        let mut i: usize = 0;
        let mut pw: u64 = p;
        let mut vw: u64 = v;
        while i < num_pages
            invariant
                self.inv(),
                i <= num_pages,
                num_pages > 0,
                i < num_pages ==> p + (i as int) * PAGE_SIZE <= 0xFFFF_FFFF_FFFF_FFFF && v + (
                i as int) * PAGE_SIZE <= 0xFFFF_FFFF_FFFF_FFFF && pw == ((p + (i as int)
                    * PAGE_SIZE) as u64) && vw == ((v + (i as int) * PAGE_SIZE) as u64),
                old(self)@.bulk_palloc(p, v, 0, num_pages as u64) == self@.bulk_palloc(
                    p,
                    v,
                    i as u64,
                    num_pages as u64,
                ),
            decreases num_pages - i,
        {
            let ghost m0 = self@;
            let ghost nn = num_pages as u64;
            match self.map_phys_addr_to_virt_addr(Some(pw), Some(vw)) {
                None => {
                    proof {
                        assert(m0.bulk_palloc(p, v, i as u64, nn) == (m0, false));
                    }
                    return None;
                },
                Some(_) => {},
            }
            proof {
                assert(m0.bulk_palloc(p, v, i as u64, nn) == self@.bulk_palloc(
                    p,
                    v,
                    ((i + 1) as u64),
                    nn,
                ));
            }
            i = i + 1;
            if i < num_pages {
                if vw > 0xFFFF_FFFF_FFFF_FFFF - PAGE_SIZE {
                    proof {
                        assert(self@.bulk_palloc(p, v, i as u64, nn) == (self@, false));
                    }
                    return None;
                }
                vw = vw + PAGE_SIZE;
                if pw > 0xFFFF_FFFF_FFFF_FFFF - PAGE_SIZE {
                    proof {
                        assert(self@.bulk_palloc(p, v, i as u64, nn) == (self@, false));
                    }
                    return None;
                }
                pw = pw + PAGE_SIZE;
            }
        }
        Some(v)
    }

    /// Deallocate `num_pages` consecutive virtual pages starting at the
    /// given aligned address.  Every page is attempted; the result is the
    /// pointer only if every page deallocated.
    #[verifier::loop_isolation(false)]
    pub fn deallocate_pages(&mut self, ptr: Option<u64>, num_pages: usize) -> (r: Option<u64>)
        requires
            old(self).inv(),
        ensures
            final(self).inv(),
            final(self)@ == old(self)@.dealloc_pages_spec(ptr, num_pages as u64).0,
            r == old(self)@.dealloc_pages_spec(ptr, num_pages as u64).1,
    {
        let v = match ptr {
            None => { return None },
            Some(v) => v,
        };
        if v & 0xFFF != 0 {
            return None;
        }
        let mut b: bool = false;
        let mut i: usize = 0;
        let mut w: u64 = v;
        while i < num_pages
            invariant
                self.inv(),
                i <= num_pages,
                i < num_pages ==> v + (i as int) * PAGE_SIZE <= 0xFFFF_FFFF_FFFF_FFFF && w == ((v
                    + (i as int) * PAGE_SIZE) as u64),
                old(self)@.bulk_dealloc(v, 0, num_pages as u64).0 == self@.bulk_dealloc(
                    v,
                    i as u64,
                    num_pages as u64,
                ).0,
                old(self)@.bulk_dealloc(v, 0, num_pages as u64).1 == (self@.bulk_dealloc(
                    v,
                    i as u64,
                    num_pages as u64,
                ).1 && !b),
            decreases num_pages - i,
        {
            let ghost m0 = self@;
            let ghost nn = num_pages as u64;
            if self.deallocate_page(Some(w)).is_none() {
                b = true;
            }
            proof {
                assert(m0.bulk_dealloc(v, i as u64, nn) == (
                    self@.bulk_dealloc(v, ((i + 1) as u64), nn).0,
                    self@.bulk_dealloc(v, ((i + 1) as u64), nn).1 && m0.dealloc_page_spec(
                        Some(w),
                    ).1 is Some,
                ));
            }
            i = i + 1;
            if i < num_pages {
                if w > 0xFFFF_FFFF_FFFF_FFFF - PAGE_SIZE {
                    proof {
                        assert(self@.bulk_dealloc(v, i as u64, nn) == (self@, false));
                    }
                    return None;
                }
                w = w + PAGE_SIZE;
            }
        }
        if b {
            None
        } else {
            ptr
        }
    }

    /// Scan upward from the virtual cursor (or the end of the identity
    /// region) for the first page that is not virtually allocated.
    pub fn find_free_virtual_page(&self) -> (r: Option<u64>)
        requires
            self.inv(),
        ensures
            r == self@.find_virt_from(self@.virt_scan_start()),
    {
        let mut addr: u64 = match self.last_mapped_virt_addr {
            None => IDENTITY_END,
            Some(v) => v,
        };
        while addr <= VMEM_MAX - PAGE_SIZE
            invariant
                self.inv(),
                self@.find_virt_from(self@.virt_scan_start()) == self@.find_virt_from(addr),
            decreases VMEM_MAX - addr,
        {
            if !self.is_virtually_allocated(Some(addr)) {
                return Some(addr);
            }
            addr = addr + PAGE_SIZE;
        }
        None
    }

    /// Scan upward from the physical cursor (or the end of the identity
    /// region) for the first page that is not physically allocated.
    pub fn find_free_physical_page(&self) -> (r: Option<u64>)
        requires
            self.inv(),
        ensures
            r == self@.find_phys_from(self@.phys_scan_start()),
    {
        let mut addr: u64 = match self.last_mapped_phys_addr {
            None => IDENTITY_END,
            Some(p) => p,
        };
        while addr <= VMEM_MAX - PAGE_SIZE
            invariant
                self.inv(),
                self@.find_phys_from(self@.phys_scan_start()) == self@.find_phys_from(addr),
            decreases VMEM_MAX - addr,
        {
            if !self.is_physically_allocated(Some(addr)) {
                return Some(addr);
            }
            addr = addr + PAGE_SIZE;
        }
        None
    }

    /// Slide a window of `num_pages` pages upward from the end of the
    /// identity region until none of its pages is virtually allocated.
    pub fn find_free_contiguous_virtual_pages(&self, num_pages: usize) -> (r: Option<u64>)
        requires
            self.inv(),
        ensures
            r == self@.find_contig_virt_from(IDENTITY_END, num_pages as u64),
    {
        let n = num_pages as u64;
        if n > MAX_PAGES {
            return None;
        }
        let mut p: u64 = IDENTITY_END;
        while p + n * PAGE_SIZE <= VMEM_MAX
            invariant
                self.inv(),
                n == num_pages as u64,
                n <= MAX_PAGES,
                p <= VMEM_MAX + PAGE_SIZE,
                self@.find_contig_virt_from(IDENTITY_END, n) == self@.find_contig_virt_from(p, n),
            decreases VMEM_MAX + PAGE_SIZE - p,
        {
            let mut b = false;
            let mut i: u64 = 0;
            while i < n && !b
                invariant
                    self.inv(),
                    i <= n,
                    n <= MAX_PAGES,
                    p + n * PAGE_SIZE <= VMEM_MAX,
                    !b ==> forall|t: u64|
                        t < i ==> !self@.mapped(#[trigger] ((p + t * PAGE_SIZE) as u64)),
                    b ==> !self@.virt_window_free(p, n),
                decreases n - i,
            {
                if self.is_virtually_allocated(Some(p + i * PAGE_SIZE)) {
                    b = true;
                }
                i = i + 1;
            }
            if !b {
                return Some(p);
            }
            p = p + PAGE_SIZE;
        }
        None
    }

    /// Find a run of `num_pages` clear bits inside one word of the
    /// physical bitmap, probing each start with a mask of that many bits.
    pub fn find_free_contiguous_physical_pages(&self, num_pages: usize) -> (r: Option<u64>)
        requires
            self.inv(),
        ensures
            r == self@.find_contig_phys_from(0, num_pages as u64),
    {
        let n = num_pages as u64;
        if n > 64 {
            proof {
                lemma_contig_phys_none_large(self@, 0, n);
            }
            return None;
        }
        // Build the probe mask of n low bits
        proof {
            lemma_mask_build(0);
        }
        let mut mask: u64 = 0;
        let mut t: u64 = 0;
        while t < n
            invariant
                t <= n,
                n <= 64,
                mask == low_mask(t),
            decreases n - t,
        {
            proof {
                lemma_mask_build(t);
            }
            mask = mask | (1u64 << t);
            t = t + 1;
        }
        let mut i: u64 = 0;
        while i < PHYS_MAP_WORDS
            invariant
                self.inv(),
                n == num_pages as u64,
                n <= 64,
                mask == low_mask(n),
                i <= PHYS_MAP_WORDS,
                self@.find_contig_phys_from(0, n) == self@.find_contig_phys_from(
                    ((i * 64) as u64),
                    n,
                ),
            decreases PHYS_MAP_WORDS - i,
        {
            let w = self.phys_map[i as usize];
            let mut j: u64 = 0;
            while j < 64
                invariant
                    self.inv(),
                    n == num_pages as u64,
                    n <= 64,
                    mask == low_mask(n),
                    i < PHYS_MAP_WORDS,
                    j <= 64,
                    w == self@.bits[i as int],
                    self@.find_contig_phys_from(0, n) == self@.find_contig_phys_from(
                        ((i * 64 + j) as u64),
                        n,
                    ),
                decreases 64 - j,
            {
                let pg = i * 64 + j;
                proof {
                    lemma_page_join(i, j);
                }
                if j + n <= 64 && (w >> j) & mask == 0 {
                    proof {
                        if n > 0 {
                            lemma_window_bits(w, j, n);
                            assert forall|t2: u64| t2 < n implies !self@.phys_bit(
                                #[trigger] ((pg + t2) as u64),
                            ) by {
                                lemma_page_join(i, (j + t2) as u64);
                                assert((w >> ((j + t2) as u64)) & 1 == 0);
                            }
                        }
                        assert(self@.phys_window_free(pg, n));
                    }
                    return Some(pg * PAGE_SIZE);
                }
                proof {
                    if j + n <= 64 && self@.phys_window_free(pg, n) {
                        if n > 0 {
                            lemma_window_bits(w, j, n);
                            assert forall|b: u64| j <= b < j + n implies (w >> b) & 1 == 0 by {
                                let t2 = (b - j) as u64;
                                assert(!self@.phys_bit(((pg + t2) as u64)));
                                lemma_page_join(i, b);
                                lemma_entry_flags(w >> b);
                            }
                            assert(forall|b: u64| j <= b < j + n ==> (w >> b) & 1 == 0);
                            assert((w >> j) & low_mask(n) == 0);
                        } else {
                            lemma_const_bits(w >> j);
                            lemma_mask_build(0);
                            assert((w >> j) & mask == 0);
                        }
                        assert(false);
                    }
                }
                j = j + 1;
            }
            i = i + 1;
        }
        None
    }
}

} // verus!
