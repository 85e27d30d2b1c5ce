use buffer_pool::buffer_pool::BufferPoolManager;
use buffer_pool::disk::{DiskManager, DiskManagerMock, MAX_NUM_DISK_PAGES};
use buffer_pool::page::{PageError, PAGE_SIZE};
use buffer_pool::pool::MAX_POOL_SIZE;
use buffer_pool::replacer::{ClockReplacer, Replacer};

fn fresh_pool() -> BufferPoolManager<DiskManagerMock> {
    BufferPoolManager::new(DiskManagerMock::new())
}

fn resident(bpm: &BufferPoolManager<DiskManagerMock>) -> usize {
    (0..MAX_POOL_SIZE).filter(|f| bpm.page_at(*f).is_some()).count()
}

fn check_table(bpm: &BufferPoolManager<DiskManagerMock>) {
    let report = bpm.response();
    assert_eq!(resident(bpm), report.page_table.len());
    for (id, frame) in report.page_table.iter() {
        assert_eq!(*id, bpm.page_at(*frame as usize).unwrap().id);
    }
    for frame in 0..MAX_POOL_SIZE {
        if let Some(page) = bpm.page_at(frame) {
            assert_eq!(Some(frame as i32), bpm.frame_of(page.id));
            assert_eq!(Some(&page.pin_count), report.pin_count.get(&page.id));
        }
    }
}

#[test]
fn new_pool_has_every_frame_free() {
    let bpm = fresh_pool();
    assert_eq!(MAX_POOL_SIZE, bpm.free_frames());
    assert_eq!(0, resident(&bpm));
    for frame in 0..MAX_POOL_SIZE {
        assert!(bpm.page_at(frame).is_none());
    }
    assert!(bpm.page_at(MAX_POOL_SIZE).is_none());
    assert_eq!(None, bpm.frame_of(1));
}

#[test]
fn capacity_holds_through_operations() {
    let mut bpm = fresh_pool();
    for i in 1..=10 {
        let id = bpm.new_page().unwrap().id;
        assert_eq!(i, id);
        assert!(resident(&bpm) <= MAX_POOL_SIZE);
        assert_eq!(MAX_POOL_SIZE, bpm.free_frames() + resident(&bpm));
        bpm.unpin_page(id, i % 2 == 0).unwrap();
        assert_eq!(MAX_POOL_SIZE, bpm.free_frames() + resident(&bpm));
        check_table(&bpm);
    }
    bpm.flush_all_pages().unwrap();
    assert_eq!(MAX_POOL_SIZE, bpm.free_frames() + resident(&bpm));
    bpm.delete_page(10).unwrap();
    assert_eq!(1, bpm.free_frames());
    assert_eq!(3, resident(&bpm));
    bpm.fetch_page(2).unwrap();
    assert_eq!(0, bpm.free_frames());
    assert_eq!(4, resident(&bpm));
    check_table(&bpm);
}

#[test]
fn failed_miss_gives_its_frame_back() {
    let mut bpm = fresh_pool();
    assert_eq!(PageError::PageNotFound, bpm.fetch_page(42).unwrap_err());
    assert_eq!(MAX_POOL_SIZE, bpm.free_frames());
    assert_eq!(0, resident(&bpm));
    assert!(bpm.page_at(0).is_none());
    assert_eq!(None, bpm.frame_of(42));
    let id = bpm.new_page().unwrap().id;
    assert_eq!(1, id);
    assert_eq!(Some(1), bpm.frame_of(1));
    for (id, frame) in [(2, 2), (3, 3), (4, 0)] {
        assert_eq!(id, bpm.new_page().unwrap().id);
        assert_eq!(Some(frame), bpm.frame_of(id));
    }
    assert_eq!(MAX_POOL_SIZE, resident(&bpm));
    check_table(&bpm);
}

#[test]
fn capacity_holds_after_failures() {
    let mut bpm = fresh_pool();
    for round in 0..10 {
        assert_eq!(PageError::PageNotFound, bpm.fetch_page(100 + round).unwrap_err());
        assert_eq!(MAX_POOL_SIZE, bpm.free_frames() + resident(&bpm));
    }
    for _ in 0..MAX_POOL_SIZE {
        let id = bpm.new_page().unwrap().id;
        bpm.unpin_page(id, false).unwrap();
    }
    for round in 0..10 {
        assert_eq!(PageError::PageNotFound, bpm.fetch_page(100 + round).unwrap_err());
        assert!(resident(&bpm) <= MAX_POOL_SIZE);
        assert_eq!(MAX_POOL_SIZE, bpm.free_frames() + resident(&bpm));
        check_table(&bpm);
    }
    assert_eq!(3, resident(&bpm));
    assert_eq!(1, bpm.free_frames());
    assert_eq!(None, bpm.frame_of(1));
    assert_eq!(3, bpm.response().clock_replacer.clock.len());
    assert_eq!(5, bpm.new_page().unwrap().id);
    assert_eq!(Some(2), bpm.frame_of(5));
    assert_eq!(Some(3), bpm.frame_of(2));
}

#[test]
fn held_page_is_neither_deleted_nor_evicted() {
    let mut bpm = fresh_pool();
    for _ in 0..MAX_POOL_SIZE {
        bpm.new_page().unwrap();
    }
    assert_eq!(PageError::PageStillInUse, bpm.delete_page(1).unwrap_err());
    assert_eq!(Some(0), bpm.frame_of(1));
    bpm.unpin_page(2, false).unwrap();
    bpm.unpin_page(3, false).unwrap();
    bpm.unpin_page(4, false).unwrap();
    assert_eq!(5, bpm.new_page().unwrap().id);
    assert_eq!(6, bpm.new_page().unwrap().id);
    assert_eq!(7, bpm.new_page().unwrap().id);
    assert_eq!(Some(0), bpm.frame_of(1));
    assert_eq!(1, bpm.page_at(0).unwrap().pin_count);
    assert_eq!(PageError::PoolExhausted, bpm.new_page().unwrap_err());
    assert_eq!(Some(0), bpm.frame_of(1));
    assert_eq!(PageError::PageStillInUse, bpm.delete_page(1).unwrap_err());
}

#[test]
fn fetch_of_resident_page_adds_a_holder() {
    let mut bpm = fresh_pool();
    bpm.new_page().unwrap();
    assert_eq!(2, bpm.fetch_page(1).unwrap().pin_count);
    assert_eq!(3, bpm.fetch_page(1).unwrap().pin_count);
    bpm.unpin_page(1, false).unwrap();
    bpm.unpin_page(1, false).unwrap();
    assert_eq!(PageError::PageStillInUse, bpm.delete_page(1).unwrap_err());
    bpm.unpin_page(1, false).unwrap();
    assert_eq!(0, bpm.page_at(0).unwrap().pin_count);
    bpm.unpin_page(1, false).unwrap();
    assert_eq!(0, bpm.page_at(0).unwrap().pin_count);
    assert_eq!(1, bpm.response().clock_replacer.clock.len());
    bpm.delete_page(1).unwrap();
    assert_eq!(0, bpm.response().clock_replacer.clock.len());
}

#[test]
fn victims_come_in_the_order_of_unpinning() {
    let mut r = ClockReplacer::new();
    for frame in 1..=6 {
        r.unpin(frame);
    }
    assert_eq!(Some(1), r.victim());
    assert_eq!(Some(2), r.victim());
    assert_eq!(Some(3), r.victim());
    assert_eq!(Some(4), r.victim());
    assert_eq!(Some(5), r.victim());
    assert_eq!(Some(6), r.victim());
    assert_eq!(None, r.victim());
    assert_eq!(None, r.victim());
}

#[test]
fn pinned_frames_are_skipped() {
    let mut r = ClockReplacer::new();
    for frame in 1..=6 {
        r.unpin(frame);
    }
    r.pin(3);
    r.pin(4);
    r.pin(9);
    assert_eq!(4, r.response().clock.len());
    assert_eq!(Some(1), r.victim());
    assert_eq!(Some(2), r.victim());
    assert_eq!(Some(5), r.victim());
    assert_eq!(Some(6), r.victim());
    assert_eq!(None, r.victim());
}

#[test]
fn dirty_page_is_written_back_when_evicted() {
    let mut bpm = fresh_pool();
    for _ in 0..MAX_POOL_SIZE {
        bpm.new_page().unwrap();
    }
    bpm.fetch_page(2).unwrap().data = [9, 8, 7, 6, 5, 4, 3, 2];
    bpm.unpin_page(2, false).unwrap();
    bpm.unpin_page(2, true).unwrap();
    assert!(bpm.page_at(1).unwrap().is_dirty);
    assert!(bpm.disk_manager().pages_on_disk().is_empty());

    assert_eq!(5, bpm.new_page().unwrap().id);
    assert_eq!(Some(1), bpm.frame_of(5));
    assert_eq!(None, bpm.frame_of(2));
    assert_eq!(vec![2], bpm.disk_manager().pages_on_disk());

    bpm.unpin_page(5, false).unwrap();
    let page = bpm.fetch_page(2).unwrap();
    assert_eq!([9, 8, 7, 6, 5, 4, 3, 2], page.data);
    assert_eq!(1, page.pin_count);
    assert_eq!(2, page.id);
}

#[test]
fn clean_page_is_not_written_when_evicted() {
    let mut bpm = fresh_pool();
    for _ in 0..MAX_POOL_SIZE {
        bpm.new_page().unwrap();
    }
    bpm.unpin_page(1, false).unwrap();
    bpm.new_page().unwrap();
    assert!(bpm.disk_manager().pages_on_disk().is_empty());
    bpm.unpin_page(2, false).unwrap();
    assert_eq!(PageError::PageNotFound, bpm.fetch_page(1).unwrap_err());
    assert_eq!(None, bpm.frame_of(2));
    assert!(bpm.page_at(1).is_none());
    assert_eq!(1, bpm.free_frames());
    assert_eq!(3, resident(&bpm));
    assert_eq!(6, bpm.new_page().unwrap().id);
    assert_eq!(Some(1), bpm.frame_of(6));
    check_table(&bpm);
}

#[test]
fn page_read_from_the_store_is_clean() {
    let mut bpm = fresh_pool();
    bpm.new_page().unwrap().data = [4, 4, 4, 4, 4, 4, 4, 4];
    bpm.unpin_page(1, true).unwrap();
    assert!(bpm.page_at(0).unwrap().is_dirty);
    bpm.flush_page(1).unwrap();
    assert!(!bpm.page_at(0).unwrap().is_dirty);
    for id in 2..=5 {
        assert_eq!(id, bpm.new_page().unwrap().id);
    }
    assert_eq!(None, bpm.frame_of(1));
    assert_eq!(Some(0), bpm.frame_of(5));
    bpm.unpin_page(5, false).unwrap();
    let page = bpm.fetch_page(1).unwrap();
    assert_eq!(1, page.id());
    assert_eq!(1, page.pin_count);
    assert!(!page.is_dirty);
    assert_eq!([4, 4, 4, 4, 4, 4, 4, 4], page.data);
    assert_eq!(Some(0), bpm.frame_of(1));
}

#[test]
fn dirty_page_read_back_after_eviction_is_clean() {
    let mut bpm = fresh_pool();
    for _ in 0..MAX_POOL_SIZE {
        bpm.new_page().unwrap();
    }
    bpm.unpin_page(1, true).unwrap();
    assert_eq!(5, bpm.new_page().unwrap().id);
    assert_eq!(vec![1], bpm.disk_manager().pages_on_disk());
    bpm.unpin_page(5, false).unwrap();
    let page = bpm.fetch_page(1).unwrap();
    assert!(!page.is_dirty);
    assert_eq!(1, page.pin_count);
}

#[test]
fn full_pool_of_held_pages_is_exhausted() {
    let mut bpm = fresh_pool();
    for _ in 0..MAX_POOL_SIZE {
        bpm.new_page().unwrap();
    }
    assert_eq!(PageError::PoolExhausted, bpm.new_page().unwrap_err());
    assert_eq!(PageError::PoolExhausted, bpm.fetch_page(99).unwrap_err());
    assert_eq!(MAX_POOL_SIZE, resident(&bpm));
    assert_eq!(0, bpm.free_frames());
    assert_eq!(2, bpm.fetch_page(3).unwrap().pin_count);
    check_table(&bpm);
}

#[test]
fn flushed_bytes_come_back() {
    let mut bpm = fresh_pool();
    let page = bpm.new_page().unwrap();
    assert_eq!([0; PAGE_SIZE], page.data);
    assert!(!page.is_dirty);
    page.data = [1, 2, 3, 4, 5, 6, 7, 8];
    let id = page.id;
    bpm.unpin_page(id, true).unwrap();
    assert!(bpm.page_at(0).unwrap().is_dirty);
    bpm.flush_page(id).unwrap();
    assert!(!bpm.page_at(0).unwrap().is_dirty);
    assert_eq!(0, bpm.page_at(0).unwrap().pin_count);
    let page = bpm.fetch_page(id).unwrap();
    assert_eq!([1, 2, 3, 4, 5, 6, 7, 8], page.data);
    assert!(!page.is_dirty);
    assert_eq!(1, page.pin_count);
}

#[test]
fn flush_keeps_the_holders() {
    let mut bpm = fresh_pool();
    bpm.new_page().unwrap();
    bpm.fetch_page(1).unwrap();
    bpm.flush_page(1).unwrap();
    assert_eq!(2, bpm.page_at(0).unwrap().pin_count);
    bpm.flush_all_pages().unwrap();
    assert_eq!(2, bpm.page_at(0).unwrap().pin_count);
    assert_eq!(PageError::PageNotFound, bpm.flush_page(2).unwrap_err());
}

#[test]
fn store_exhaustion_is_reported() {
    let mut bpm = fresh_pool();
    for i in 1..=MAX_NUM_DISK_PAGES {
        let id = bpm.new_page().unwrap().id;
        assert_eq!(i, id);
        bpm.unpin_page(id, false).unwrap();
    }
    assert_eq!(PageError::OutOfStorage, bpm.new_page().unwrap_err());
    assert_eq!(3, resident(&bpm));
    assert_eq!(1, bpm.free_frames());
    check_table(&bpm);
    assert_eq!(3, bpm.response().clock_replacer.clock.len());
    assert_eq!(3, bpm.response().page_table.len());
    assert_eq!(PageError::OutOfStorage, bpm.new_page().unwrap_err());
    assert_eq!(3, resident(&bpm));
    assert_eq!(1, bpm.free_frames());
    check_table(&bpm);
    bpm.fetch_page(15).unwrap();
    assert_eq!(PageError::OutOfStorage, bpm.new_page().unwrap_err());
    assert_eq!(1, bpm.page_at(bpm.frame_of(15).unwrap() as usize).unwrap().pin_count);
    assert_eq!(MAX_POOL_SIZE, bpm.free_frames() + resident(&bpm));
}

#[test]
fn store_exhaustion_with_free_frames_keeps_the_pool() {
    let mut bpm = fresh_pool();
    for id in 1..=MAX_NUM_DISK_PAGES {
        assert_eq!(id, bpm.new_page().unwrap().id);
        bpm.unpin_page(id, false).unwrap();
        bpm.delete_page(id).unwrap();
    }
    assert_eq!(MAX_POOL_SIZE, bpm.free_frames());
    assert_eq!(PageError::OutOfStorage, bpm.new_page().unwrap_err());
    assert_eq!(MAX_POOL_SIZE, bpm.free_frames());
    assert_eq!(0, resident(&bpm));
    assert!(bpm.response().page_table.is_empty());
}

#[test]
fn deleting_needs_a_resident_page() {
    let mut bpm = fresh_pool();
    assert_eq!(PageError::PageNotFound, bpm.delete_page(1).unwrap_err());
    assert_eq!(PageError::PageNotFound, bpm.unpin_page(1, true).unwrap_err());
    assert_eq!(PageError::PageNotFound, bpm.flush_page(1).unwrap_err());
    bpm.new_page().unwrap();
    bpm.flush_page(1).unwrap();
    bpm.unpin_page(1, false).unwrap();
    bpm.delete_page(1).unwrap();
    assert!(bpm.page_at(0).is_none());
    assert_eq!(MAX_POOL_SIZE, bpm.free_frames());
    assert_eq!(PageError::PageNotFound, bpm.delete_page(1).unwrap_err());
    assert_eq!(PageError::PageNotFound, bpm.fetch_page(1).unwrap_err());
}

#[test]
fn deleted_frame_is_taken_last() {
    let mut bpm = fresh_pool();
    bpm.new_page().unwrap();
    bpm.unpin_page(1, false).unwrap();
    bpm.delete_page(1).unwrap();
    for (id, frame) in [(2, 1), (3, 2), (4, 3), (5, 0)] {
        assert_eq!(id, bpm.new_page().unwrap().id);
        assert_eq!(Some(frame), bpm.frame_of(id));
    }
    assert_eq!(None, bpm.frame_of(1));
}

#[test]
fn deleted_page_is_not_written_again() {
    let mut bpm = fresh_pool();
    bpm.new_page().unwrap();
    bpm.new_page().unwrap();
    bpm.flush_page(1).unwrap();
    bpm.unpin_page(1, true).unwrap();
    bpm.delete_page(1).unwrap();
    assert!(bpm.disk_manager().pages_on_disk().is_empty());
    bpm.flush_all_pages().unwrap();
    assert_eq!(vec![2], bpm.disk_manager().pages_on_disk());
    assert!(bpm.response().pin_count.get(&1).is_none());
}

#[test]
fn flush_all_cleans_every_page() {
    let mut bpm = fresh_pool();
    for _ in 0..3 {
        bpm.new_page().unwrap();
    }
    bpm.unpin_page(1, true).unwrap();
    bpm.unpin_page(3, true).unwrap();
    bpm.flush_all_pages().unwrap();
    for frame in 0..3 {
        assert!(!bpm.page_at(frame).unwrap().is_dirty);
    }
    assert!(bpm.page_at(3).is_none());
    assert_eq!(vec![1, 2, 3], bpm.disk_manager().pages_on_disk());
    assert_eq!(0, bpm.page_at(0).unwrap().pin_count);
    assert_eq!(1, bpm.page_at(1).unwrap().pin_count);
}

#[test]
fn unpin_never_cleans_a_page() {
    let mut bpm = fresh_pool();
    bpm.new_page().unwrap();
    bpm.fetch_page(1).unwrap();
    bpm.unpin_page(1, true).unwrap();
    assert!(bpm.page_at(0).unwrap().is_dirty);
    bpm.unpin_page(1, false).unwrap();
    assert!(bpm.page_at(0).unwrap().is_dirty);
    assert_eq!(0, bpm.page_at(0).unwrap().pin_count);
    assert!(bpm.disk_manager().pages_on_disk().is_empty());
}

#[test]
fn report_tells_the_state() {
    let mut bpm = fresh_pool();
    bpm.new_page().unwrap();
    bpm.new_page().unwrap();
    bpm.fetch_page(2).unwrap();
    bpm.unpin_page(1, true).unwrap();
    bpm.flush_page(2).unwrap();
    let report = bpm.response();
    assert_eq!(vec![2], report.pages_in_disk);
    assert_eq!(4, report.max_pool_size);
    assert_eq!(15, report.max_disk_num_pages);
    assert_eq!(2, report.page_table.len());
    assert_eq!(Some(&0), report.page_table.get(&1));
    assert_eq!(Some(&1), report.page_table.get(&2));
    assert_eq!(2, report.pin_count.len());
    assert_eq!(Some(&0), report.pin_count.get(&1));
    assert_eq!(Some(&2), report.pin_count.get(&2));
    assert_eq!(0, report.clock_replacer.clock_hand);
    assert_eq!(1, report.clock_replacer.clock.len());
    assert_eq!(0, report.clock_replacer.clock[0].clock_frame);
    assert!(report.clock_replacer.clock[0].reference_value);
}
