use buffer_pool::buffer_pool::BufferPoolManager;
use buffer_pool::disk::{DiskManager, DiskManagerMock};
use buffer_pool::page::PageError;
use buffer_pool::pool::MAX_POOL_SIZE;

fn all_pages(bpm: &mut BufferPoolManager<DiskManagerMock>) {
    for i in 0..MAX_POOL_SIZE as i32 {
        let page = bpm.new_page().unwrap();
        assert_eq!(i + 1, page.id());
        assert_eq!(i, bpm.frame_of(i + 1).unwrap())
    }
}

#[test]
fn unpin_page() {
    let mut bpm = BufferPoolManager::new(DiskManagerMock::new());

    all_pages(&mut bpm);
    bpm.unpin_page(1, false).unwrap();
    assert_eq!(0, bpm.page_at(0).unwrap().pin_count);

    let page_id = bpm.new_page().unwrap().id;
    assert_eq!(MAX_POOL_SIZE as i32 + 1, page_id);
    assert_eq!(0, bpm.frame_of(MAX_POOL_SIZE as i32 + 1).unwrap());

    assert_eq!(PageError::PoolExhausted, bpm.new_page().unwrap_err());
}

#[test]
fn flush_page() {
    let mut bpm = BufferPoolManager::new(DiskManagerMock::new());

    assert_eq!(0, bpm.disk_manager().pages_on_disk().len());

    let page_id = bpm.new_page().unwrap().id;
    bpm.flush_page(page_id).unwrap();

    assert!(bpm.disk_manager().pages_on_disk().contains(&page_id))
}

#[test]
fn fetch_page() {
    let mut bpm = BufferPoolManager::new(DiskManagerMock::new());

    all_pages(&mut bpm);
    bpm.unpin_page(1, false).unwrap();
    assert_eq!(1, bpm.page_at(0).unwrap().id);
    assert_eq!(0, bpm.page_at(0).unwrap().pin_count);
    bpm.flush_page(1).unwrap();

    bpm.new_page().unwrap();
    bpm.unpin_page(5, false).unwrap();
    assert_eq!(5, bpm.page_at(0).unwrap().id);
    assert_eq!(0, bpm.page_at(0).unwrap().pin_count);

    bpm.fetch_page(1).unwrap();
    assert_eq!(1, bpm.page_at(0).unwrap().id);
    assert_eq!(1, bpm.page_at(0).unwrap().pin_count);
}

#[test]
fn delete_page() {
    let mut bpm = BufferPoolManager::new(DiskManagerMock::new());

    bpm.new_page().unwrap();
    assert!(bpm.frame_of(1).is_some());

    bpm.flush_page(1).unwrap();
    assert!(bpm.disk_manager().pages_on_disk().contains(&1));

    bpm.unpin_page(1, false).unwrap();

    bpm.delete_page(1).unwrap();
    assert!(!bpm.frame_of(1).is_some());
    assert!(!bpm.disk_manager().pages_on_disk().contains(&1));
}

#[test]
fn flush_all_pages() {
    let mut bpm = BufferPoolManager::new(DiskManagerMock::new());

    all_pages(&mut bpm);
    assert_eq!(0, bpm.disk_manager().pages_on_disk().len());

    bpm.flush_all_pages().unwrap();

    for i in 0..MAX_POOL_SIZE as i32 {
        assert!(bpm.disk_manager().pages_on_disk().contains(&(i + 1)));
    }
}
