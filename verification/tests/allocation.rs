//! Behavior of the allocators, the free-page searches, the cursors and
//! the bulk deallocator.

use pager::Pager;

const PAGE: u64 = 4096;
const MIB: u64 = 1024 * 1024;

fn fresh() -> Pager {
    let mut p = Pager::new();
    p.init();
    p
}

#[test]
fn find_free_pages_after_init() {
    let p = fresh();
    // The identity region is mapped, so both searches start right after it.
    assert_eq!(p.find_free_virtual_page(), Some(16 * MIB));
    assert_eq!(p.find_free_physical_page(), Some(16 * MIB));
    assert_eq!(p.find_free_contiguous_virtual_pages(4), Some(16 * MIB));
    // The bitmap is untouched by init, so the first clear run is page 0.
    assert_eq!(p.find_free_contiguous_physical_pages(1), Some(0));
}

#[test]
fn no_virtual_space_for_oversized_window() {
    let p = fresh();
    // A window as large as the whole managed range cannot fit above the
    // identity region.
    assert_eq!(p.find_free_contiguous_virtual_pages(2097152), None);
}

#[test]
fn find_contiguous_physical_edge_counts() {
    let p = fresh();
    // A zero-length run is found trivially at the start.
    assert_eq!(p.find_free_contiguous_physical_pages(0), Some(0));
    // A whole word is the longest run the search can see.
    assert_eq!(p.find_free_contiguous_physical_pages(64), Some(0));
    assert_eq!(p.find_free_contiguous_physical_pages(65), None);
}

#[test]
fn find_contiguous_physical_skips_taken_bits() {
    let mut p = fresh();
    // Take pages 0 and 2 of the bitmap.
    assert_eq!(
        p.map_phys_addr_to_virt_addr(Some(0), Some(0x40000000)),
        Some(0x40000000)
    );
    assert_eq!(
        p.map_phys_addr_to_virt_addr(Some(2 * PAGE), Some(0x40001000)),
        Some(0x40001000)
    );
    // The single-page run lands between them, a two-page run after them.
    assert_eq!(p.find_free_contiguous_physical_pages(1), Some(PAGE));
    assert_eq!(p.find_free_contiguous_physical_pages(2), Some(3 * PAGE));
}

#[test]
fn allocate_page_at_free_address() {
    let mut p = fresh();
    // The first free physical page backs the requested virtual page, and
    // the allocator reports the physical address.
    let r = p.allocate_page(Some(0x40000000));
    assert_eq!(r, Some(16 * MIB));
    assert_eq!(p.as_phys_addr(Some(0x40000000)), Some(16 * MIB));
    assert_eq!(p.last_mapped_phys_addr(), Some(16 * MIB));
    assert_eq!(p.last_mapped_virt_addr(), Some(0x40000000));
}

#[test]
fn allocate_page_anywhere() {
    let mut p = fresh();
    // With no address given, the first free virtual page is used.
    let r = p.allocate_page(None);
    assert_eq!(r, Some(16 * MIB));
    assert_eq!(p.as_phys_addr(Some(16 * MIB)), Some(16 * MIB));
    // The next anonymous allocation moves past both cursors.
    let r2 = p.allocate_page(None);
    assert_eq!(r2, Some(16 * MIB + PAGE));
    assert_eq!(p.as_phys_addr(Some(16 * MIB + PAGE)), Some(16 * MIB + PAGE));
}

#[test]
fn allocate_page_rejections() {
    let mut p = fresh();
    assert_eq!(p.allocate_page(Some(0x40000001)), None);
    // An already mapped page is refused.
    assert_eq!(p.allocate_page(Some(0x100000)), None);
}

#[test]
fn allocate_virtually_contiguous() {
    let mut p = fresh();
    let base: u64 = 0x50000000;
    let r = p.allocate_virtually_contiguous_pages(Some(base), 3);
    assert_eq!(r, Some(base));
    // Each page is backed by a fresh frame found right after the identity
    // region; the bitmap makes consecutive searches skip taken frames.
    assert_eq!(p.as_phys_addr(Some(base)), Some(16 * MIB));
    assert_eq!(p.as_phys_addr(Some(base + PAGE)), Some(16 * MIB + PAGE));
    assert_eq!(p.as_phys_addr(Some(base + 2 * PAGE)), Some(16 * MIB + 2 * PAGE));
}

#[test]
fn allocate_pages_is_the_virtually_contiguous_allocator() {
    let mut p = fresh();
    let r = p.allocate_pages(None, 2);
    assert_eq!(r, Some(16 * MIB));
    assert!(p.is_virtually_allocated(Some(16 * MIB)));
    assert!(p.is_virtually_allocated(Some(16 * MIB + PAGE)));
}

#[test]
fn bulk_allocators_reject_zero_pages() {
    let mut p = fresh();
    assert_eq!(p.allocate_virtually_contiguous_pages(Some(0x50000000), 0), None);
    assert_eq!(p.allocate_pages(None, 0), None);
    assert_eq!(
        p.allocate_physically_contiguous_pages(Some(0x200000), Some(0x50000000), 0),
        None
    );
}

#[test]
fn bulk_allocators_reject_unaligned_starts() {
    let mut p = fresh();
    assert_eq!(p.allocate_virtually_contiguous_pages(Some(0x50000001), 2), None);
    assert_eq!(
        p.allocate_physically_contiguous_pages(Some(0x200001), Some(0x50000000), 2),
        None
    );
    assert_eq!(
        p.allocate_physically_contiguous_pages(Some(0x200000), Some(0x50000001), 2),
        None
    );
}

#[test]
fn physically_contiguous_with_found_run() {
    let mut p = fresh();
    // No frames are marked yet, so the found run starts at page 0.
    let r = p.allocate_physically_contiguous_pages(None, Some(0x60000000), 2);
    assert_eq!(r, Some(0x60000000));
    assert_eq!(p.as_phys_addr(Some(0x60000000)), Some(0));
    assert_eq!(p.as_phys_addr(Some(0x60001000)), Some(PAGE));
}

#[test]
fn deallocate_pages_round_trip() {
    let mut p = fresh();
    let base: u64 = 0x50000000;
    assert_eq!(p.allocate_virtually_contiguous_pages(Some(base), 3), Some(base));
    let r = p.deallocate_pages(Some(base), 3);
    assert_eq!(r, Some(base));
    for i in 0..3u64 {
        assert!(!p.is_virtually_allocated(Some(base + i * PAGE)));
    }
    // The freed frames are findable again.
    assert!(!p.is_physically_allocated(Some(16 * MIB + PAGE)));
}

#[test]
fn deallocate_pages_partial_failure() {
    let mut p = fresh();
    let base: u64 = 0x50000000;
    assert_eq!(p.allocate_virtually_contiguous_pages(Some(base), 2), Some(base));
    // The third page of the window was never mapped: the bulk call fails,
    // but still deallocates the pages it could.
    assert_eq!(p.deallocate_pages(Some(base), 3), None);
    assert!(!p.is_virtually_allocated(Some(base)));
    assert!(!p.is_virtually_allocated(Some(base + PAGE)));
}

#[test]
fn deallocate_pages_edge_counts() {
    let mut p = fresh();
    // Zero pages deallocate vacuously.
    assert_eq!(p.deallocate_pages(Some(0x50000000), 0), Some(0x50000000));
    assert_eq!(p.deallocate_pages(None, 1), None);
    assert_eq!(p.deallocate_pages(Some(0x50000001), 1), None);
}

#[test]
fn pml4_table_after_init() {
    let p = fresh();
    let t = p.pml4t();
    assert_eq!(t.len(), 512);
    // The first entry is present and writable; the rest are absent.
    assert_eq!(t[0], 3);
    assert_eq!(t[1], 0);
    assert_eq!(t[511], 0);
}

#[test]
fn allocated_pages_list_is_empty() {
    let p = Pager::new();
    let l = p.allocated_pages();
    assert_eq!(l.len(), 2097152);
    assert!(l[0].is_none());
    assert!(l[l.len() - 1].is_none());
}

#[test]
fn cursors_start_empty() {
    let p = Pager::new();
    assert_eq!(p.last_mapped_phys_addr(), None);
    assert_eq!(p.last_mapped_virt_addr(), None);
}

#[test]
fn pages_for_bytes_rounds_up() {
    assert_eq!(pager::pages_for_bytes(0), 0);
    assert_eq!(pager::pages_for_bytes(1), 1);
    assert_eq!(pager::pages_for_bytes(4096), 1);
    assert_eq!(pager::pages_for_bytes(4097), 2);
    assert_eq!(pager::pages_for_bytes(16 * 1024 * 1024), 4096);
}
