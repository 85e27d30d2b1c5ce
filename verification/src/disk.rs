//! The backing store: what the page cache asks of it, and a store held in
//! memory.

use vstd::prelude::*;
use std::collections::HashMap;
use crate::page::{Page, PageError, PageId};

verus! {

/// The number of identifiers that the in-memory store gives out.
pub const MAX_NUM_DISK_PAGES: i32 = 15;

/// What a backing store holds.
#[verifier::ext_equal]
pub struct Store {
    /// The pages written and not retired since, by identifier.
    pub pages: Map<PageId, Page>,
    /// The identifiers given out that will not be given out again.
    pub issued: Set<PageId>,
    /// The identifiers that the store gives out next, in this order; empty
    /// when it gives out no more.
    pub upcoming: Seq<PageId>,
    /// The error of the last write that the store refused, if it refused one.
    pub refusal: Option<PageError>,
}

impl Store {
    /// Every stored page is kept under its own identifier, which was given
    /// out, and no identifier is given out twice.
    pub open spec fn valid(self) -> bool {
        &&& forall|id: PageId| #[trigger]
            self.pages.contains_key(id) ==> self.issued.contains(id) && self.pages[id].id == id
        &&& self.upcoming.no_duplicates()
        &&& forall|id: PageId| #[trigger] self.upcoming.contains(id) ==> !self.issued.contains(id)
    }

    /// The identifier that the next allocation gives, if there is one.
    pub open spec fn next(self) -> Option<PageId> {
        if self.upcoming.len() > 0 {
            Some(self.upcoming[0])
        } else {
            None
        }
    }

    /// The store after it gave out its next identifier.
    pub open spec fn allocated(self) -> Store
        recommends
            self.upcoming.len() > 0,
    {
        Store {
            issued: self.issued.insert(self.upcoming[0]),
            upcoming: self.upcoming.drop_first(),
            ..self
        }
    }

    /// The store after `page` was written.
    pub open spec fn written(self, page: Page) -> Store {
        Store { pages: self.pages.insert(page.id, page), ..self }
    }

    /// The store after it refused a write with the error `e`: it holds what it
    /// held, and remembers the error.
    pub open spec fn refusing(self, e: PageError) -> Store {
        Store { refusal: Some(e), ..self }
    }
}

/// A backing store of pages.
pub trait DiskManager {
    /// Whether the store's state is consistent.
    spec fn valid(&self) -> bool;

    /// What the store holds.
    spec fn model(&self) -> Store;

    /// What the store holds after `id` was retired. Its page is gone; whether
    /// the identifier may be given out again is for the store to say.
    spec fn retired(&self, id: PageId) -> Store;

    /// Whether the store takes every write. A store that may report a fault
    /// of its medium is not reliable.
    spec fn reliable(&self) -> bool;

    /// A consistent store holds a valid model.
    proof fn lemma_valid(&self)
        requires
            self.valid(),
        ensures
            self.model().valid(),
    ;

    /// Gives the stored page of `id`, or `PageNotFound` where none is stored.
    fn read_page(&mut self, id: PageId) -> (found: Result<&Box<Page>, PageError>)
        requires
            old(self).valid(),
        ensures
            final(self).valid(),
            final(self).reliable() == old(self).reliable(),
            final(self).model() == old(self).model(),
            match found {
                Ok(page) => old(self).model().pages.contains_key(id) && **page == old(
                    self,
                ).model().pages[id],
                Err(e) => !old(self).model().pages.contains_key(id) && e
                    == PageError::PageNotFound,
            },
    ;

    /// Stores `page` under its identifier. A reliable store does so; another
    /// may refuse with an error, and then stores nothing and remembers the
    /// error.
    fn write_page(&mut self, page: &Box<Page>) -> (done: Result<(), PageError>)
        requires
            old(self).valid(),
            old(self).model().issued.contains(page.id),
        ensures
            final(self).valid(),
            final(self).reliable() == old(self).reliable(),
            match done {
                Ok(()) => final(self).model() == old(self).model().written(**page),
                Err(e) => !old(self).reliable() && final(self).model() == old(
                    self,
                ).model().refusing(e),
            },
    ;

    /// Gives out the next identifier, or `OutOfStorage` where there is none.
    fn allocate_page(&mut self) -> (given: Result<PageId, PageError>)
        requires
            old(self).valid(),
        ensures
            final(self).valid(),
            final(self).reliable() == old(self).reliable(),
            match given {
                Ok(id) => old(self).model().next() == Some(id) && final(self).model() == old(
                    self,
                ).model().allocated(),
                Err(e) => old(self).model().next() is None && e == PageError::OutOfStorage
                    && final(self).model() == old(self).model(),
            },
    ;

    /// Retires `id`: its page is stored no longer. The identifier may be given
    /// out again; no other becomes free.
    fn deallocate_page(&mut self, id: PageId)
        requires
            old(self).valid(),
        ensures
            final(self).valid(),
            final(self).reliable() == old(self).reliable(),
            final(self).model() == old(self).retired(id),
            final(self).model().pages == old(self).model().pages.remove(id),
            final(self).model().issued.insert(id) == old(self).model().issued.insert(id),
    ;

    /// The identifiers of the stored pages, in ascending order.
    fn pages_on_disk(&self) -> (ids: Vec<i32>)
        requires
            self.valid(),
        ensures
            ids@.to_set() == self.model().pages.dom(),
            forall|i: int, j: int| 0 <= i < j < ids@.len() ==> ids@[i] < ids@[j],
    ;
}

/// Puts `id` into the ascending `ids`, before the first identifier above it.
fn insert_ascending(ids: &mut Vec<i32>, id: i32)
    requires
        forall|i: int, j: int| 0 <= i < j < old(ids)@.len() ==> old(ids)@[i] < old(ids)@[j],
        !old(ids)@.contains(id),
    ensures
        forall|i: int, j: int| 0 <= i < j < final(ids)@.len() ==> final(ids)@[i] < final(ids)@[j],
        forall|k: i32| final(ids)@.contains(k) <==> old(ids)@.contains(k) || k == id,
        final(ids)@.len() == old(ids)@.len() + 1,
{
    let mut at: usize = 0;
    while at < ids.len() && ids[at] < id
        invariant
            at <= ids.len(),
            ids@ == old(ids)@,
            forall|i: int| 0 <= i < at ==> ids@[i] < id,
        decreases ids.len() - at,
    {
        at += 1;
    }
    ids.insert(at, id);
    proof {
        let before = old(ids)@;
        let after = ids@;
        assert(at < before.len() ==> before[at as int] > id) by {
            if at < before.len() {
                assert(before.contains(before[at as int]));
            }
        }
        assert forall|k: i32| after.contains(k) <==> before.contains(k) || k == id by {
            if after.contains(k) {
                let j = choose|j: int| 0 <= j < after.len() && after[j] == k;
                if j < at {
                    assert(before[j] == k);
                } else if j > at {
                    assert(before[j - 1] == k);
                }
            }
            if before.contains(k) {
                let j = choose|j: int| 0 <= j < before.len() && before[j] == k;
                if j < at {
                    assert(after[j] == k);
                } else {
                    assert(after[j + 1] == k);
                }
            }
            if k == id {
                assert(after[at as int] == k);
            }
        }
    }
}

/// A backing store held in memory.
pub struct DiskManagerMock {
    num_pages: i32,
    pages: HashMap<PageId, Box<Page>>,
}

impl DiskManagerMock {
    /// A store that holds no page and has given out no identifier.
    pub fn new() -> (store: Box<DiskManagerMock>)
        ensures
            store.valid(),
            store.model() == (Store {
                pages: Map::empty(),
                issued: Set::empty(),
                upcoming: Seq::new(MAX_NUM_DISK_PAGES as nat, |i: int| (i + 1) as PageId),
                refusal: None,
            }),
    {
        let store = Box::new(DiskManagerMock { num_pages: 0, pages: HashMap::new() });
        proof {
            assert(store.model().pages =~= Map::empty());
            assert(store.model().issued =~= Set::empty());
            assert(store.model().upcoming =~= Seq::new(
                MAX_NUM_DISK_PAGES as nat,
                |i: int| (i + 1) as PageId,
            ));
        }
        store
    }
}

impl DiskManager for DiskManagerMock {
    closed spec fn valid(&self) -> bool {
        &&& 0 <= self.num_pages <= MAX_NUM_DISK_PAGES
        &&& forall|id: PageId| #[trigger]
            self.pages@.contains_key(id) ==> 1 <= id <= self.num_pages && self.pages@[id].id
                == id
    }

    closed spec fn model(&self) -> Store {
        Store {
            pages: self.pages@.map_values(|page: Box<Page>| *page),
            issued: Set::new(|id: PageId| 1 <= id <= self.num_pages),
            upcoming: Seq::new(
                (MAX_NUM_DISK_PAGES - self.num_pages) as nat,
                |i: int| (self.num_pages + 1 + i) as PageId,
            ),
            refusal: None,
        }
    }

    /// The in-memory store gives no identifier out again.
    open spec fn retired(&self, id: PageId) -> Store {
        Store { pages: self.model().pages.remove(id), ..self.model() }
    }

    /// The in-memory store takes every write.
    open spec fn reliable(&self) -> bool {
        true
    }

    proof fn lemma_valid(&self) {
    }

    fn read_page(&mut self, id: PageId) -> (found: Result<&Box<Page>, PageError>) {
        if let Some(page) = self.pages.get(&id) {
            Ok(page)
        } else {
            Err(PageError::PageNotFound)
        }
    }

    fn write_page(&mut self, page: &Box<Page>) -> (done: Result<(), PageError>) {
        self.pages.insert(page.id(), page.clone());
        proof {
            assert(self.model().pages =~= old(self).model().written(**page).pages);
        }
        Ok(())
    }

    fn allocate_page(&mut self) -> (given: Result<PageId, PageError>) {
        if self.num_pages >= MAX_NUM_DISK_PAGES {
            return Err(PageError::OutOfStorage);
        }
        self.num_pages += 1;
        proof {
            assert(self.model().issued =~= old(self).model().allocated().issued);
            assert(self.model().upcoming =~= old(self).model().allocated().upcoming);
        }
        Ok(self.num_pages)
    }

    fn deallocate_page(&mut self, id: PageId) {
        self.pages.remove(&id);
        proof {
            assert(self.model().pages =~= old(self).model().pages.remove(id));
        }
    }

    fn pages_on_disk(&self) -> (ids: Vec<i32>) {
        broadcast use vstd::std_specs::hash::axiom_spec_keys_iter;

        let mut pages: Vec<i32> = Vec::new();
        for id in iter: self.pages.keys()
            invariant
                iter.seq().len() == self.pages@.dom().len(),
                pages@.len() == iter.index(),
                forall|k: i32| pages@.contains(k) ==> self.pages@.dom().contains(k),
                iter.seq().unref().to_set() == self.pages@.dom(),
                iter.seq().no_duplicates(),
                forall|i: int, j: int| 0 <= i < j < pages@.len() ==> pages@[i] < pages@[j],
                forall|k: i32|
                    pages@.contains(k) <==> exists|j: int|
                        0 <= j < iter.index() && *iter.seq()[j] == k,
        {
            proof {
                let keys = iter.seq().unref();
                assert(keys[iter.index()] == *id);
                assert(keys.to_set().contains(*id));
            }
            insert_ascending(&mut pages, *id);
        }
        proof {
            let dom = self.pages@.dom();
            assert(pages@.no_duplicates());
            pages@.unique_seq_to_set();
            assert(pages@.to_set().subset_of(dom));
            vstd::set_lib::lemma_subset_equality(pages@.to_set(), dom);
            assert(pages@.to_set() =~= self.model().pages.dom());
        }
        pages
    }
}

} // verus!
