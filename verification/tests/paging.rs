//! Behavior of the pager: initialization, translation, mapping,
//! allocation and deallocation on concrete addresses.

use pager::Pager;

const PAGE: u64 = 4096;
const MIB: u64 = 1024 * 1024;

fn fresh() -> Pager {
    let mut p = Pager::new();
    p.init();
    p
}

#[test]
fn init_identity_translations() {
    let p = fresh();
    assert_eq!(p.as_phys_addr(Some(0x0)), Some(0x0));
    assert_eq!(p.as_phys_addr(Some(0x100000)), Some(0x100000));
    assert_eq!(p.as_phys_addr(Some(0xFFF000)), Some(0xFFF000));
    assert_eq!(p.as_phys_addr(Some(0x02000000)), None);
}

#[test]
fn init_identity_region_everywhere() {
    let p = fresh();
    let mut v: u64 = 0;
    while v < 16 * MIB {
        assert_eq!(p.as_phys_addr(Some(v)), Some(v));
        assert!(p.is_virtually_allocated(Some(v)));
        v += 1024 * PAGE;
    }
    // The last page of the identity region.
    assert_eq!(p.as_phys_addr(Some(16 * MIB - PAGE)), Some(16 * MIB - PAGE));
    // One page past it is not mapped.
    assert!(!p.is_virtually_allocated(Some(16 * MIB)));
}

#[test]
fn translation_keeps_page_offset() {
    let p = fresh();
    assert_eq!(p.as_phys_addr(Some(0x123)), Some(0x123));
    assert_eq!(p.as_phys_addr(Some(0x200FFF)), Some(0x200FFF));
}

#[test]
fn single_mapping() {
    let mut p = fresh();
    let r = p.map_phys_addr_to_virt_addr(Some(0x20000000), Some(0x40000000));
    assert_eq!(r, Some(0x40000000));
    assert_eq!(p.as_phys_addr(Some(0x40000000)), Some(0x20000000));
    assert!(p.is_physically_allocated(Some(0x20000000)));
}

#[test]
fn mapping_round_trip_with_offset() {
    let mut p = fresh();
    assert_eq!(
        p.map_phys_addr_to_virt_addr(Some(0x20000000), Some(0x40000000)),
        Some(0x40000000)
    );
    // Frame alignment: the translated base has no offset bits.
    let base = p.as_phys_addr(Some(0x40000000)).unwrap();
    assert_eq!(base & 0xFFF, 0);
    // Round trip for interior addresses of the page.
    assert_eq!(p.as_phys_addr(Some(0x40000123)), Some(0x20000123));
    assert_eq!(p.as_phys_addr(Some(0x40000FFF)), Some(0x20000FFF));
}

#[test]
fn kernel_map_physically_contiguous() {
    let mut p = fresh();
    let virt: u64 = 0xFFFFFFFF80000000;
    let phys: u64 = 0x200000;
    let r = p.allocate_physically_contiguous_pages(Some(phys), Some(virt), 16);
    assert_eq!(r, Some(virt));
    for i in 0..16u64 {
        assert_eq!(p.as_phys_addr(Some(virt + i * PAGE)), Some(phys + i * PAGE));
    }
}

#[test]
fn alignment_rejection() {
    let mut p = fresh();
    assert_eq!(p.map_phys_addr_to_virt_addr(Some(0x20000001), Some(0x40000000)), None);
    assert_eq!(p.map_phys_addr_to_virt_addr(Some(0x20000000), Some(0x40000001)), None);
    // Nothing was mapped by the failed calls.
    assert_eq!(p.as_phys_addr(Some(0x40000000)), None);
}

#[test]
fn missing_input_rejection() {
    let mut p = fresh();
    assert_eq!(p.map_phys_addr_to_virt_addr(None, Some(0x40000000)), None);
    assert_eq!(p.map_phys_addr_to_virt_addr(Some(0x20000000), None), None);
    assert_eq!(p.as_phys_addr(None), None);
    assert_eq!(p.deallocate_page(None), None);
    // An empty input reads as "already taken" on both predicates.
    assert!(p.is_virtually_allocated(None));
    assert!(p.is_physically_allocated(None));
}

#[test]
fn out_of_range_frame_rejection() {
    let mut p = fresh();
    // A frame at or past the managed limit has no bitmap slot.
    assert_eq!(
        p.map_phys_addr_to_virt_addr(Some(0x200000000), Some(0x40000000)),
        None
    );
}

#[test]
fn double_map_rejection() {
    let mut p = fresh();
    assert_eq!(
        p.map_phys_addr_to_virt_addr(Some(0x20000000), Some(0x40000000)),
        Some(0x40000000)
    );
    assert_eq!(p.map_phys_addr_to_virt_addr(Some(0x21000000), Some(0x40000000)), None);
    assert_eq!(p.as_phys_addr(Some(0x40000000)), Some(0x20000000));
}

#[test]
fn deallocate_round_trip() {
    let mut p = fresh();
    assert_eq!(
        p.map_phys_addr_to_virt_addr(Some(0x20000000), Some(0x40000000)),
        Some(0x40000000)
    );
    let r = p.deallocate_page(Some(0x40000000));
    assert!(r.is_some());
    assert!(!p.is_virtually_allocated(Some(0x40000000)));
    assert!(!p.is_physically_allocated(Some(0x20000000)));
    // A fresh identical mapping succeeds again.
    assert_eq!(
        p.map_phys_addr_to_virt_addr(Some(0x20000000), Some(0x40000000)),
        Some(0x40000000)
    );
}

#[test]
fn deallocate_rejections() {
    let mut p = fresh();
    // Unaligned pointer.
    assert_eq!(p.deallocate_page(Some(0x40000001)), None);
    // Not mapped.
    assert_eq!(p.deallocate_page(Some(0x40000000)), None);
}

#[test]
fn identity_pages_count_as_physically_allocated() {
    let p = fresh();
    assert!(p.is_physically_allocated(Some(0x0)));
    assert!(p.is_physically_allocated(Some(0x100000)));
    // Past the identity region, with no mapping, nothing is allocated.
    assert!(!p.is_physically_allocated(Some(16 * MIB)));
    // Past the managed range nothing has a bitmap slot.
    assert!(!p.is_physically_allocated(Some(0x200000000)));
}
