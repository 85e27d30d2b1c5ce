use buffer_pool::buffer_pool::BufferPoolManager;
use buffer_pool::disk::{DiskManager, Store};
use buffer_pool::page::{Page, PageError, PageId};
use buffer_pool::pool::MAX_POOL_SIZE;
use std::collections::HashMap;

/// A store that refuses the writes of chosen pages.
struct FaultyStore {
    given: i32,
    pages: HashMap<PageId, Box<Page>>,
    refused: Vec<PageId>,
    error: PageError,
    writes: Vec<PageId>,
}

impl FaultyStore {
    fn new(refused: Vec<PageId>, error: PageError) -> Box<FaultyStore> {
        Box::new(FaultyStore {
            given: 0,
            pages: HashMap::new(),
            refused,
            error,
            writes: Vec::new(),
        })
    }
}

impl DiskManager for FaultyStore {
    fn valid(&self) -> bool {
        unreachable!()
    }

    fn model(&self) -> Store {
        unreachable!()
    }

    fn retired(&self, _: PageId) -> Store {
        unreachable!()
    }

    fn reliable(&self) -> bool {
        unreachable!()
    }

    fn lemma_valid(&self) {
        unreachable!()
    }

    fn read_page(&mut self, id: PageId) -> Result<&Box<Page>, PageError> {
        self.pages.get(&id).ok_or(PageError::PageNotFound)
    }

    fn write_page(&mut self, page: &Box<Page>) -> Result<(), PageError> {
        self.writes.push(page.id);
        if self.refused.contains(&page.id) {
            return Err(self.error);
        }
        self.pages.insert(page.id, page.clone());
        Ok(())
    }

    fn allocate_page(&mut self) -> Result<PageId, PageError> {
        self.given += 1;
        Ok(self.given)
    }

    fn deallocate_page(&mut self, id: PageId) {
        self.pages.remove(&id);
    }

    fn pages_on_disk(&self) -> Vec<i32> {
        let mut ids: Vec<i32> = self.pages.keys().copied().collect();
        ids.sort();
        ids
    }
}

fn resident(bpm: &BufferPoolManager<FaultyStore>) -> usize {
    (0..MAX_POOL_SIZE).filter(|f| bpm.page_at(*f).is_some()).count()
}

#[test]
fn refused_flush_hands_on_the_error_of_the_store() {
    let mut bpm = BufferPoolManager::new(FaultyStore::new(vec![2], PageError::OutOfStorage));
    bpm.new_page().unwrap();
    bpm.new_page().unwrap();
    bpm.unpin_page(2, true).unwrap();
    assert_eq!(Ok(()), bpm.flush_page(1));
    assert_eq!(Err(PageError::OutOfStorage), bpm.flush_page(2));
    assert!(bpm.page_at(1).unwrap().is_dirty);
    assert_eq!(0, bpm.page_at(1).unwrap().pin_count);
    assert_eq!(vec![1], bpm.disk_manager().pages_on_disk());
    assert_eq!(vec![1, 2], bpm.disk_manager().writes);
}

#[test]
fn flush_all_stops_at_the_first_refusal() {
    let mut bpm = BufferPoolManager::new(FaultyStore::new(vec![3], PageError::PageStillInUse));
    for id in 1..=4 {
        bpm.new_page().unwrap();
        bpm.unpin_page(id, true).unwrap();
    }
    assert_eq!(Err(PageError::PageStillInUse), bpm.flush_all_pages());
    assert!(!bpm.page_at(0).unwrap().is_dirty);
    assert!(!bpm.page_at(1).unwrap().is_dirty);
    assert!(bpm.page_at(2).unwrap().is_dirty);
    assert!(bpm.page_at(3).unwrap().is_dirty);
    assert_eq!(vec![1, 2], bpm.disk_manager().pages_on_disk());
    assert_eq!(vec![1, 2, 3], bpm.disk_manager().writes);
}

#[test]
fn refused_write_back_frees_the_frame() {
    let mut bpm = BufferPoolManager::new(FaultyStore::new(vec![1], PageError::PageNotFound));
    for _ in 0..MAX_POOL_SIZE {
        bpm.new_page().unwrap();
    }
    bpm.unpin_page(1, true).unwrap();
    assert_eq!(PageError::PageNotFound, bpm.new_page().unwrap_err());
    assert_eq!(None, bpm.frame_of(1));
    assert!(bpm.page_at(0).is_none());
    assert_eq!(1, bpm.free_frames());
    assert_eq!(3, resident(&bpm));
    assert!(bpm.response().clock_replacer.clock.is_empty());
    assert_eq!(vec![1], bpm.disk_manager().writes);
    assert!(bpm.disk_manager().pages_on_disk().is_empty());

    assert_eq!(5, bpm.new_page().unwrap().id);
    assert_eq!(Some(0), bpm.frame_of(5));
    assert_eq!(MAX_POOL_SIZE, resident(&bpm));
}

#[test]
fn refused_write_back_on_fetch_frees_the_frame() {
    let mut bpm = BufferPoolManager::new(FaultyStore::new(vec![2], PageError::OutOfStorage));
    for _ in 0..MAX_POOL_SIZE {
        bpm.new_page().unwrap();
    }
    bpm.flush_page(1).unwrap();
    bpm.unpin_page(1, false).unwrap();
    assert_eq!(5, bpm.new_page().unwrap().id);
    bpm.unpin_page(2, true).unwrap();
    assert_eq!(PageError::OutOfStorage, bpm.fetch_page(1).unwrap_err());
    assert_eq!(None, bpm.frame_of(2));
    assert_eq!(None, bpm.frame_of(1));
    assert_eq!(1, bpm.free_frames());
    assert_eq!(3, resident(&bpm));
    let page = bpm.fetch_page(1).unwrap();
    assert_eq!(1, page.pin_count);
    assert!(!page.is_dirty);
    assert_eq!(Some(1), bpm.frame_of(1));
}
