use std::collections::HashMap;

use bustubx::buffer::buffer_pool::{BufferPoolManager, PinnedPage};
use bustubx::buffer::page::BUSTUBX_PAGE_SIZE;
use bustubx::buffer::PageId;

/// Allocates page ids as the disk does, one after another, and asks the pool
/// for a frame; the id is used only when the pool found a frame.
fn new_page(bpm: &mut BufferPoolManager, next_page_id: &mut PageId) -> Option<PinnedPage> {
    let r = bpm.new_page(*next_page_id);
    if r.is_some() {
        *next_page_id += 1;
    }
    r
}

#[test]
pub fn test_buffer_pool_manager_new_page() {
    let mut next = 0;
    let mut buffer_pool_manager = BufferPoolManager::new(3, 2);
    let page = new_page(&mut buffer_pool_manager, &mut next).unwrap();
    assert_eq!(page.page_id, 0);
    assert_eq!(buffer_pool_manager.page(0).page_id, page.page_id);
    assert_eq!(buffer_pool_manager.frame_of(page.page_id), Some(0));
    assert_eq!(buffer_pool_manager.free_frame_count(), 2);
    assert_eq!(buffer_pool_manager.replacer().size(), 0);

    let page = new_page(&mut buffer_pool_manager, &mut next).unwrap();
    assert_eq!(page.page_id, 1);
    let page = new_page(&mut buffer_pool_manager, &mut next).unwrap();
    assert_eq!(page.page_id, 2);
    let page = new_page(&mut buffer_pool_manager, &mut next);
    assert!(page.is_none());

    buffer_pool_manager.unpin_page(0, false);
    let page = new_page(&mut buffer_pool_manager, &mut next).unwrap();
    assert_eq!(page.page_id, 3);
}

#[test]
pub fn test_buffer_pool_manager_unpin_page() {
    let mut next = 0;
    let mut buffer_pool_manager = BufferPoolManager::new(3, 2);

    let _page = new_page(&mut buffer_pool_manager, &mut next).unwrap();
    let _page = new_page(&mut buffer_pool_manager, &mut next).unwrap();
    let _page = new_page(&mut buffer_pool_manager, &mut next).unwrap();
    let page = new_page(&mut buffer_pool_manager, &mut next);
    assert!(page.is_none());

    buffer_pool_manager.unpin_page(0, true);
    let page = new_page(&mut buffer_pool_manager, &mut next).unwrap();
    assert_eq!(page.page_id, 3);
}

#[test]
pub fn test_buffer_pool_manager_fetch_page() {
    let mut next = 0;
    let mut buffer_pool_manager = BufferPoolManager::new(3, 2);

    let _page = new_page(&mut buffer_pool_manager, &mut next).unwrap();
    buffer_pool_manager.unpin_page(0, true);
    let _page = new_page(&mut buffer_pool_manager, &mut next).unwrap();
    buffer_pool_manager.unpin_page(1, false);
    let _page = new_page(&mut buffer_pool_manager, &mut next).unwrap();
    buffer_pool_manager.unpin_page(2, false);

    let page = buffer_pool_manager.fetch_page_mut(0, None);
    assert!(page.is_some());
    assert_eq!(page.unwrap().page_id, 0);
    buffer_pool_manager.unpin_page(0, false);

    let page = buffer_pool_manager.fetch_page(1, None);
    assert!(page.is_some());
    assert_eq!(page.unwrap().page_id, 1);
    buffer_pool_manager.unpin_page(1, false);
    assert_eq!(buffer_pool_manager.replacer().size(), 3);
}

#[test]
pub fn test_buffer_pool_manager_delete_page() {
    let mut next = 0;
    let mut buffer_pool_manager = BufferPoolManager::new(3, 2);

    let _page_id = new_page(&mut buffer_pool_manager, &mut next).unwrap();
    buffer_pool_manager.unpin_page(0, true);
    let _page_id = new_page(&mut buffer_pool_manager, &mut next).unwrap();
    buffer_pool_manager.unpin_page(1, true);
    let _page_id = new_page(&mut buffer_pool_manager, &mut next).unwrap();
    buffer_pool_manager.unpin_page(2, false);

    let res = buffer_pool_manager.delete_page(0);
    assert!(res);
    assert_eq!(buffer_pool_manager.num_pages(), 3);
    assert_eq!(buffer_pool_manager.free_frame_count(), 1);
    assert_eq!(buffer_pool_manager.replacer().size(), 2);
    assert_eq!(buffer_pool_manager.resident_page_count(), 2);

    let page = buffer_pool_manager.fetch_page_mut(1, None);
    assert!(page.is_some());
    assert_eq!(page.unwrap().page_id, 1);
}

#[test]
fn new_page_is_zeroed_and_pinned() {
    let mut bpm = BufferPoolManager::new(2, 2);
    let p = bpm.new_page(7).unwrap();
    assert_eq!(p.frame_id, 0);
    assert!(p.write_back.is_none());
    let page = bpm.page(0);
    assert_eq!(page.page_id, 7);
    assert_eq!(page.pin_count, 1);
    assert!(!page.is_dirty);
    assert!(page.data.iter().all(|b| *b == 0));
}

#[test]
fn fetch_reads_back_written_data() {
    let mut bpm = BufferPoolManager::new(2, 2);
    bpm.new_page(4).unwrap();
    let mut data = [0u8; BUSTUBX_PAGE_SIZE];
    data[0] = 42;
    data[BUSTUBX_PAGE_SIZE - 1] = 7;
    bpm.write_page(4, data);
    let fetched = bpm.fetch_page(4, None).unwrap();
    let page = bpm.page(fetched.frame_id);
    assert_eq!(page.data[0], 42);
    assert_eq!(page.data[BUSTUBX_PAGE_SIZE - 1], 7);
    assert!(page.is_dirty);
    assert_eq!(page.pin_count, 2);
}

#[test]
fn write_to_absent_page_does_nothing() {
    let mut bpm = BufferPoolManager::new(1, 2);
    bpm.write_page(9, [1u8; BUSTUBX_PAGE_SIZE]);
    assert!(!bpm.is_resident(9));
    assert_eq!(bpm.free_frame_count(), 1);
}

#[test]
fn eviction_hands_back_dirty_page() {
    let mut bpm = BufferPoolManager::new(1, 2);
    bpm.new_page(0).unwrap();
    let data = [5u8; BUSTUBX_PAGE_SIZE];
    bpm.write_page(0, data);
    assert!(bpm.unpin_page(0, false));
    let p = bpm.new_page(1).unwrap();
    assert_eq!(p.frame_id, 0);
    let wb = p.write_back.unwrap();
    assert_eq!(wb.page_id, 0);
    assert_eq!(wb.data[100], 5);
    assert!(!bpm.is_resident(0));
    assert!(bpm.is_resident(1));
}

#[test]
fn eviction_of_clean_page_writes_nothing() {
    let mut bpm = BufferPoolManager::new(1, 2);
    bpm.new_page(0).unwrap();
    assert!(bpm.unpin_page(0, false));
    let p = bpm.new_page(1).unwrap();
    assert!(p.write_back.is_none());
}

#[test]
fn fetch_of_absent_page_loads_given_data() {
    let mut bpm = BufferPoolManager::new(2, 2);
    assert!(bpm.needs_disk_read(3));
    let p = bpm.fetch_page(3, Some([9u8; BUSTUBX_PAGE_SIZE])).unwrap();
    assert_eq!(p.page_id, 3);
    let page = bpm.page(p.frame_id);
    assert_eq!(page.data[17], 9);
    assert_eq!(page.pin_count, 1);
    assert!(!page.is_dirty);
    assert!(!bpm.needs_disk_read(3));
}

#[test]
fn fetch_fails_when_all_frames_pinned() {
    let mut bpm = BufferPoolManager::new(1, 2);
    bpm.new_page(0).unwrap();
    assert!(!bpm.can_allocate());
    assert!(!bpm.needs_disk_read(1));
    assert!(bpm.fetch_page(1, None).is_none());
    assert!(bpm.is_resident(0));
}

#[test]
fn unpin_errors() {
    let mut bpm = BufferPoolManager::new(2, 2);
    assert!(!bpm.unpin_page(0, false));
    bpm.new_page(0).unwrap();
    assert!(bpm.unpin_page(0, true));
    assert!(!bpm.unpin_page(0, false));
    assert!(bpm.page(0).is_dirty);
    assert_eq!(bpm.replacer().size(), 1);
}

#[test]
fn fetch_then_unpin_restores_state() {
    let mut bpm = BufferPoolManager::new(2, 2);
    bpm.new_page(0).unwrap();
    bpm.unpin_page(0, false);
    assert_eq!(bpm.replacer().size(), 1);
    bpm.fetch_page(0, None).unwrap();
    assert_eq!(bpm.replacer().size(), 0);
    assert!(bpm.unpin_page(0, false));
    assert_eq!(bpm.replacer().size(), 1);
    assert_eq!(bpm.page(0).pin_count, 0);
    assert!(!bpm.page(0).is_dirty);
}

#[test]
fn pinned_page_is_never_evicted() {
    let mut bpm = BufferPoolManager::new(2, 2);
    bpm.new_page(0).unwrap();
    bpm.new_page(1).unwrap();
    bpm.unpin_page(1, false);
    let p = bpm.new_page(2).unwrap();
    assert_eq!(p.frame_id, 1);
    assert!(bpm.is_resident(0));
    assert!(!bpm.is_resident(1));
}

#[test]
fn delete_pinned_page_fails() {
    let mut bpm = BufferPoolManager::new(2, 2);
    bpm.new_page(0).unwrap();
    assert!(!bpm.delete_page(0));
    assert!(bpm.is_resident(0));
    assert!(bpm.delete_page(5));
    bpm.unpin_page(0, false);
    assert!(bpm.delete_page(0));
    assert!(!bpm.is_resident(0));
    assert_eq!(bpm.free_frame_count(), 2);
    assert_eq!(bpm.replacer().size(), 0);
}

#[test]
fn flush_page_cleans_and_returns_data() {
    let mut bpm = BufferPoolManager::new(2, 2);
    assert!(bpm.flush_page(0).is_none());
    bpm.new_page(0).unwrap();
    bpm.write_page(0, [3u8; BUSTUBX_PAGE_SIZE]);
    let wb = bpm.flush_page(0).unwrap();
    assert_eq!(wb.page_id, 0);
    assert_eq!(wb.data[0], 3);
    assert!(!bpm.page(0).is_dirty);
}

#[test]
fn flush_all_pages_returns_resident_pages_in_frame_order() {
    let mut bpm = BufferPoolManager::new(3, 2);
    bpm.new_page(10).unwrap();
    bpm.new_page(11).unwrap();
    bpm.write_page(11, [1u8; BUSTUBX_PAGE_SIZE]);
    let out = bpm.flush_all_pages();
    assert_eq!(out.len(), 2);
    assert_eq!(out[0].page_id, 10);
    assert_eq!(out[1].page_id, 11);
    assert_eq!(out[1].data[0], 1);
    assert!(!bpm.page(1).is_dirty);
}

#[test]
fn frames_are_free_or_resident() {
    let mut bpm = BufferPoolManager::new(4, 2);
    assert_eq!(bpm.free_frame_count() + bpm.resident_page_count(), 4);
    bpm.new_page(0).unwrap();
    bpm.new_page(1).unwrap();
    assert_eq!(bpm.free_frame_count() + bpm.resident_page_count(), 4);
    bpm.unpin_page(1, false);
    bpm.delete_page(1);
    assert_eq!(bpm.free_frame_count(), 3);
    assert_eq!(bpm.free_frame_count() + bpm.resident_page_count(), 4);
}

#[test]
fn evicted_page_reads_back_after_reload() {
    let mut disk: HashMap<PageId, [u8; BUSTUBX_PAGE_SIZE]> = HashMap::new();
    let mut bpm = BufferPoolManager::new(1, 2);
    disk.insert(0, [0u8; BUSTUBX_PAGE_SIZE]);
    bpm.new_page(0).unwrap();
    let mut data = [0u8; BUSTUBX_PAGE_SIZE];
    data[1] = 77;
    bpm.write_page(0, data);
    bpm.unpin_page(0, false);

    disk.insert(1, [0u8; BUSTUBX_PAGE_SIZE]);
    let p = bpm.new_page(1).unwrap();
    let wb = p.write_back.unwrap();
    disk.insert(wb.page_id, wb.data);
    bpm.unpin_page(1, false);

    assert!(bpm.needs_disk_read(0));
    let loaded = disk[&0];
    let p = bpm.fetch_page(0, Some(loaded)).unwrap();
    assert!(p.write_back.is_none());
    assert_eq!(bpm.page(p.frame_id).data[1], 77);
}
