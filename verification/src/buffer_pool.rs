//! The page cache: a fixed number of frames in front of a backing store.

use vstd::prelude::*;
use std::collections::HashMap;
use std::collections::VecDeque;
use crate::disk::{DiskManager, Store, MAX_NUM_DISK_PAGES};
use crate::page::{FrameId, Page, PageError, PageId};
use crate::pool::{Pool, MAX_POOL_SIZE};
use crate::replacer::{ClockReplacer, ClockReplacerRep, Replacer};

verus! {

/// The page cache. Pages come into its frames from the backing store, stay
/// while somebody holds them, and leave when their frame is needed.
pub struct BufferPoolManager<D: DiskManager> {
    disk_manager: Box<D>,
    replacer: ClockReplacer,
    pages: Vec<Option<Box<Page>>>,
    free_list: VecDeque<FrameId>,
    page_table: HashMap<PageId, FrameId>,
}

impl<D: DiskManager> View for BufferPoolManager<D> {
    type V = Pool;

    closed spec fn view(&self) -> Pool {
        Pool {
            frames: self.pages@.map_values(
                |slot: Option<Box<Page>>|
                    match slot {
                        Some(page) => Some(*page),
                        None => None,
                    },
            ),
            free: self.free_list@,
            table: self.page_table@,
            clock: self.replacer@,
        }
    }
}

impl<D: DiskManager> BufferPoolManager<D> {
    /// The backing store.
    pub closed spec fn disk(&self) -> D {
        *self.disk_manager
    }

    /// What the backing store holds.
    pub open spec fn store(&self) -> Store {
        self.disk().model()
    }

    /// The store is valid, the pool is in order but for the frame `spare`
    /// where there is one, and every resident page has an identifier that
    /// the store gave out.
    pub open spec fn valid_but(&self, spare: Option<FrameId>) -> bool {
        &&& self.disk().valid()
        &&& self@.valid_but(spare)
        &&& forall|id: PageId| #[trigger]
            self@.table.contains_key(id) ==> self.store().issued.contains(id)
    }

    /// The pool and the store are valid, and every resident page has an
    /// identifier that the store gave out.
    pub open spec fn valid(&self) -> bool {
        self.valid_but(None)
    }

    /// Whether a miss gets its frame: there is one to take, and the page that
    /// leaves it needs no write or the store is sure to take it.
    pub open spec fn miss_gets_frame(&self) -> bool {
        &&& self@.chosen() is Some
        &&& self@.outgoing() is None || self.disk().reliable()
    }

    /// A pool with every frame empty and free, in front of `disk_manager`.
    pub fn new(disk_manager: Box<D>) -> (manager: BufferPoolManager<D>)
        requires
            disk_manager.valid(),
        ensures
            manager.valid(),
            manager@ == Pool::empty(),
            manager.disk() == *disk_manager,
    {
        let mut manager = BufferPoolManager {
            disk_manager,
            replacer: ClockReplacer::new(),
            pages: Vec::new(),
            free_list: VecDeque::new(),
            page_table: HashMap::new(),
        };
        let mut i: usize = 0;
        while i < MAX_POOL_SIZE
            invariant
                i <= MAX_POOL_SIZE,
                manager.disk() == *disk_manager,
                manager.replacer@ == Pool::empty().clock,
                manager.page_table@ == Map::<PageId, FrameId>::empty(),
                manager.pages@.len() == i,
                manager.free_list@.len() == i,
                forall|f: int| 0 <= f < i ==> (#[trigger] manager.pages@[f]) is None,
                forall|f: int| 0 <= f < i ==> (#[trigger] manager.free_list@[f]) == f,
            decreases MAX_POOL_SIZE - i,
        {
            manager.pages.push(None);
            manager.free_list.push_back(i as FrameId);
            i += 1;
        }
        proof {
            assert(manager@.frames =~= Pool::empty().frames);
            assert(manager@.free =~= Pool::empty().free);
            Pool::lemma_empty_valid();
        }
        manager
    }

    /// Picks the frame for a miss: the first free frame, or the clock's
    /// victim where none is free. Tells whether the frame was free.
    fn get_frame_id(&mut self) -> (picked: Result<(FrameId, bool), PageError>)
        requires
            old(self).valid(),
        ensures
            final(self).disk() == old(self).disk(),
            match picked {
                Ok((frame, was_free)) => {
                    &&& old(self)@.chosen() == Some(frame)
                    &&& was_free <==> old(self)@.free.len() > 0
                    &&& final(self)@ == old(self)@.reserved()
                },
                Err(e) => {
                    &&& e == PageError::PoolExhausted
                    &&& old(self)@.chosen() is None
                    &&& final(self)@ == old(self)@
                },
            },
    {
        if self.free_list.len() > 0 {
            match self.free_list.pop_front() {
                Some(frame_id) => {
                    proof {
                        assert(self@.free =~= old(self)@.free.drop_first());
                    }
                    Ok((frame_id, true))
                },
                None => Err(PageError::PoolExhausted),
            }
        } else {
            if let Some(frame_id) = self.replacer.victim() {
                Ok((frame_id, false))
            } else {
                Err(PageError::PoolExhausted)
            }
        }
    }

    /// Empties `frame_id` for reuse: its page leaves the page table, and is
    /// written to the store first where it is dirty.
    fn write_if_dirty(&mut self, frame_id: FrameId) -> (done: Result<(), PageError>)
        requires
            0 <= frame_id < MAX_POOL_SIZE,
            old(self)@.frames.len() == MAX_POOL_SIZE,
            old(self).disk().valid(),
            old(self)@.frames[frame_id as int] matches Some(page)
                ==> old(self).store().issued.contains(page.id),
        ensures
            final(self).disk().valid(),
            final(self).disk().reliable() == old(self).disk().reliable(),
            final(self)@ == old(self)@.vacated(frame_id),
            match done {
                Ok(()) => final(self).store() == old(self).store().saved(
                    old(self)@.dirty_in(frame_id),
                ),
                Err(e) => old(self)@.dirty_in(frame_id) is Some && !old(self).disk().reliable()
                    && final(self).store() == old(self).store().refusing(e),
            },
    {
        let existing_page = self.pages[frame_id as usize].take();
        proof {
            assert(self@.frames =~= old(self)@.frames.update(frame_id as int, None));
        }
        if let Some(page) = existing_page {
            self.page_table.remove(&page.id);
            if page.is_dirty {
                return self.disk_manager.write_page(&page);
            }
        }
        Ok(())
    }

    /// Hands out the page in `frame_id`. The pool stays valid as long as the
    /// identifier and the number of holders are left as they are.
    fn page_mut(&mut self, frame_id: FrameId) -> (page: &mut Page)
        requires
            0 <= frame_id < MAX_POOL_SIZE,
            old(self)@.frames.len() == MAX_POOL_SIZE,
            old(self)@.frames[frame_id as int] is Some,
        ensures
            *page == old(self)@.frames[frame_id as int]->0,
            final(self).disk() == old(self).disk(),
            final(self)@ =~= old(self)@.with_page(frame_id, *final(page)) && (old(self).valid()
                && final(page).id == page.id && final(page).pin_count == page.pin_count
                ==> final(self).valid()),
    {
        proof {
            let pool = self@;
            if self.valid() {
                let held = pool.frames[frame_id as int]->0;
                assert forall|kept: Page|
                    kept.id == held.id && kept.pin_count == held.pin_count implies (
                    #[trigger] pool.with_page(frame_id, kept)).valid() by {
                    pool.lemma_with_page(frame_id, kept);
                }
            }
        }
        self.pages[frame_id as usize].as_mut().unwrap()
    }

    /// Gets the frame for a miss, ready for its page: the first free frame, or
    /// the clock's victim, whose page has left and is written to the store
    /// where it was dirty. Where the store refuses that write, the page is
    /// given up and the frame becomes free.
    fn acquire_frame(&mut self) -> (acquired: Result<FrameId, PageError>)
        requires
            old(self).valid(),
        ensures
            final(self).disk().reliable() == old(self).disk().reliable(),
            old(self).miss_gets_frame() ==> acquired is Ok,
            match acquired {
                Ok(frame) => {
                    &&& old(self)@.chosen() == Some(frame)
                    &&& final(self).valid_but(Some(frame))
                    &&& final(self)@ == old(self)@.taken()
                    &&& final(self)@.frames[frame as int] is None
                    &&& final(self).store() == old(self).store().saved(old(self)@.outgoing())
                },
                Err(e) => {
                    &&& final(self).valid()
                    &&& final(self)@ == old(self)@.given_back()
                    &&& if old(self)@.chosen() is None {
                        e == PageError::PoolExhausted && final(self).store() == old(self).store()
                    } else {
                        &&& old(self)@.outgoing() is Some
                        &&& !old(self).disk().reliable()
                        &&& final(self).store() == old(self).store().refusing(e)
                    }
                },
            },
    {
        let ghost start = self@;
        let (frame_id, is_from_free_list) = match self.get_frame_id() {
            Ok(picked) => picked,
            Err(e) => {
                return Err(e);
            },
        };
        proof {
            start.lemma_taken();
            old(self).disk().lemma_valid();
        }
        let written = if !is_from_free_list {
            self.write_if_dirty(frame_id)
        } else {
            Ok(())
        };
        proof {
            assert(self@.frames =~= start.taken().frames);
            assert(self@ == start.taken());
            assert forall|id: PageId| #[trigger]
                self@.table.contains_key(id) implies self.store().issued.contains(id) by {
                assert(start.taken().resident(id));
            }
        }
        if let Err(e) = written {
            self.free_list.push_back(frame_id);
            proof {
                start.lemma_given_back();
            }
            return Err(e);
        }
        Ok(frame_id)
    }

    /// Gives up the frame that a miss took and could not fill: it becomes
    /// the last of the free frames.
    fn release_frame(&mut self, frame_id: FrameId)
        requires
            old(self).valid_but(Some(frame_id)),
            old(self)@.frames[frame_id as int] is None,
        ensures
            final(self).valid(),
            final(self)@ == old(self)@.freed(frame_id),
            final(self).disk() == old(self).disk(),
    {
        proof {
            self@.lemma_freed(frame_id);
        }
        self.free_list.push_back(frame_id);
    }

    /// Brings a new page into the pool and hands it out, held once.
    ///
    /// The page takes the frame that a miss takes; a dirty page that leaves
    /// that frame is written to the store first. The store then gives the
    /// new page its identifier. Without a frame the pool is exhausted and
    /// nothing changes. Where the store refuses the write or has no
    /// identifier left, the frame that was taken is empty and free
    /// afterwards, and the error is the store's.
    ///
    /// Through the handle the caller may change the bytes and the flag of the
    /// page; the pool stays valid as long as the identifier and the number of
    /// holders are left as they are.
    pub fn new_page(&mut self) -> (created: Result<&mut Page, PageError>)
        requires
            old(self).valid(),
        ensures
            final(self).disk().valid(),
            final(self).disk().reliable() == old(self).disk().reliable(),
            old(self)@.chosen() is None ==> (created matches Err(PageError::PoolExhausted)),
            old(self).miss_gets_frame() && old(self).store().next() is Some ==> created is Ok,
            match created {
                Ok(page) => {
                    let frame = old(self)@.chosen()->0;
                    let id = old(self).store().next()->0;
                    &&& old(self)@.chosen() is Some
                    &&& old(self).store().next() is Some
                    &&& page.is_fresh(id)
                    &&& final(self)@ == old(self)@.taken().installed(frame, *page).with_page(
                        frame,
                        *final(page),
                    )
                    &&& final(self).store() == old(self).store().saved(
                        old(self)@.outgoing(),
                    ).allocated()
                    &&& final(page).id == page.id && final(page).pin_count == page.pin_count
                        ==> final(self).valid()
                },
                Err(e) => {
                    &&& final(self).valid()
                    &&& final(self)@ == old(self)@.given_back()
                    &&& {
                        ||| {
                            &&& old(self)@.chosen() is None
                            &&& e == PageError::PoolExhausted
                            &&& final(self).store() == old(self).store()
                        }
                        ||| {
                            &&& old(self)@.outgoing() is Some
                            &&& !old(self).disk().reliable()
                            &&& final(self).store() == old(self).store().refusing(e)
                        }
                        ||| {
                            &&& old(self)@.chosen() is Some
                            &&& old(self).store().next() is None
                            &&& e == PageError::OutOfStorage
                            &&& final(self).store() == old(self).store().saved(
                                old(self)@.outgoing(),
                            )
                        }
                    }
                },
            },
    {
        let ghost start = self@;
        let frame_id = match self.acquire_frame() {
            Ok(frame_id) => frame_id,
            Err(e) => {
                return Err(e);
            },
        };
        proof {
            old(self).disk().lemma_valid();
            start.lemma_taken();
        }
        match self.disk_manager.allocate_page() {
            Ok(page_id) => {
                self.page_table.insert(page_id, frame_id);
                let page = Page::new(page_id);
                self.pages[frame_id as usize] = Some(page);
                proof {
                    assert(old(self).store().upcoming[0] == page_id);
                    assert(old(self).store().upcoming.contains(page_id));
                    assert(!start.taken().resident(page_id));
                    start.taken().lemma_installed(frame_id, *page);
                    assert(self@.frames =~= start.taken().installed(frame_id, *page).frames);
                    assert(self@ == start.taken().installed(frame_id, *page));
                }
                Ok(self.page_mut(frame_id))
            },
            Err(e) => {
                self.release_frame(frame_id);
                Err(e)
            },
        }
    }

    /// Hands out the page `id` with one more holder.
    ///
    /// A resident page stays where it is and can no longer be evicted. Another
    /// page is read from the store into the frame that a miss takes; a dirty
    /// page that leaves that frame is written to the store first, and the
    /// page that comes in is clean and held once. Without a frame the pool is
    /// exhausted and nothing changes. Where the store refuses the write or
    /// does not hold the page, the frame that was taken is empty and free
    /// afterwards, and the error is the store's.
    ///
    /// Through the handle the caller may change the bytes and the flag of the
    /// page; the pool stays valid as long as the identifier and the number of
    /// holders are left as they are.
    pub fn fetch_page(&mut self, id: PageId) -> (fetched: Result<&mut Page, PageError>)
        requires
            old(self).valid(),
            old(self)@.resident(id) ==> old(self)@.page(id).pin_count < i32::MAX,
        ensures
            final(self).disk().valid(),
            final(self).disk().reliable() == old(self).disk().reliable(),
            old(self)@.resident(id) ==> fetched is Ok,
            !old(self)@.resident(id) && old(self)@.chosen() is None ==> (fetched matches Err(
                PageError::PoolExhausted,
            )),
            old(self).miss_gets_frame() && old(self).store().pages.contains_key(id)
                ==> fetched is Ok,
            match fetched {
                Ok(page) => if old(self)@.resident(id) {
                    let held = old(self)@.page(id);
                    &&& *page == Page { pin_count: (held.pin_count + 1) as i32, ..held }
                    &&& final(self)@ == old(self)@.pinned(id).with_page(
                        old(self)@.table[id],
                        *final(page),
                    )
                    &&& final(self).store() == old(self).store()
                    &&& final(page).id == page.id && final(page).pin_count == page.pin_count
                        ==> final(self).valid()
                } else {
                    let frame = old(self)@.chosen()->0;
                    &&& old(self)@.chosen() is Some
                    &&& old(self).store().pages.contains_key(id)
                    &&& *page == old(self).store().pages[id].read_in()
                    &&& final(self)@ == old(self)@.taken().installed(frame, *page).with_page(
                        frame,
                        *final(page),
                    )
                    &&& final(self).store() == old(self).store().saved(old(self)@.outgoing())
                    &&& final(page).id == page.id && final(page).pin_count == page.pin_count
                        ==> final(self).valid()
                },
                Err(e) => {
                    &&& !old(self)@.resident(id)
                    &&& final(self).valid()
                    &&& final(self)@ == old(self)@.given_back()
                    &&& {
                        ||| {
                            &&& old(self)@.chosen() is None
                            &&& e == PageError::PoolExhausted
                            &&& final(self).store() == old(self).store()
                        }
                        ||| {
                            &&& old(self)@.outgoing() is Some
                            &&& !old(self).disk().reliable()
                            &&& final(self).store() == old(self).store().refusing(e)
                        }
                        ||| {
                            &&& old(self)@.chosen() is Some
                            &&& !old(self).store().pages.contains_key(id)
                            &&& e == PageError::PageNotFound
                            &&& final(self).store() == old(self).store().saved(
                                old(self)@.outgoing(),
                            )
                        }
                    }
                },
            },
    {
        let ghost start = self@;
        let resident = match self.page_table.get(&id) {
            Some(frame_id) => Some(*frame_id),
            None => None,
        };
        if let Some(frame_id) = resident {
            match self.pages[frame_id as usize].as_mut() {
                Some(page) => {
                    page.pin_count += 1;
                },
                None => {},
            }
            self.replacer.pin(frame_id);
            proof {
                start.lemma_pinned(id);
                assert(self@.frames =~= start.pinned(id).frames);
                assert(self@ == start.pinned(id));
            }
            Ok(self.page_mut(frame_id))
        } else {
            let frame_id = match self.acquire_frame() {
                Ok(frame_id) => frame_id,
                Err(e) => {
                    return Err(e);
                },
            };
            proof {
                old(self).disk().lemma_valid();
                start.lemma_taken();
            }
            let read = match self.disk_manager.read_page(id) {
                Ok(page) => Ok(page.clone()),
                Err(e) => Err(e),
            };
            let mut incoming = match read {
                Ok(page) => page,
                Err(e) => {
                    self.release_frame(frame_id);
                    return Err(e);
                },
            };
            incoming.pin_count = 1;
            incoming.is_dirty = false;
            self.page_table.insert(id, frame_id);
            self.pages[frame_id as usize] = Some(incoming);
            proof {
                self.disk().lemma_valid();
                start.taken().lemma_installed(frame_id, *incoming);
                assert(self@.frames =~= start.taken().installed(frame_id, *incoming).frames);
                assert(self@ == start.taken().installed(frame_id, *incoming));
            }
            Ok(self.page_mut(frame_id))
        }
    }

    /// Takes one holder off the resident page `id`, and marks the page dirty
    /// where the holder says so. A page that nobody holds any more may be
    /// evicted. Nothing is written to the store.
    pub fn unpin_page(&mut self, id: PageId, is_dirty: bool) -> (done: Result<(), PageError>)
        requires
            old(self).valid(),
        ensures
            final(self).valid(),
            final(self).disk() == old(self).disk(),
            match done {
                Ok(()) => old(self)@.resident(id) && final(self)@ == old(self)@.unpinned(
                    id,
                    is_dirty,
                ),
                Err(e) => !old(self)@.resident(id) && e == PageError::PageNotFound && final(self)@
                    == old(self)@,
            },
    {
        let ghost start = self@;
        let resident = match self.page_table.get(&id) {
            Some(frame_id) => Some(*frame_id),
            None => None,
        };
        if let Some(frame_id) = resident {
            if let Some(page) = self.pages[frame_id as usize].as_mut() {
                if page.dec_pin_count() {
                    self.replacer.unpin(frame_id);
                }
                page.is_dirty = page.is_dirty || is_dirty;
            }
            proof {
                start.lemma_unpinned(id, is_dirty);
                assert(self@.frames =~= start.unpinned(id, is_dirty).frames);
                assert(self@ == start.unpinned(id, is_dirty));
            }
            Ok(())
        } else {
            Err(PageError::PageNotFound)
        }
    }

    /// Writes the resident page `id` to the store and marks it clean. The
    /// number of holders stays. Where the store refuses the write, the pool
    /// is as it was and the error is the store's.
    pub fn flush_page(&mut self, id: PageId) -> (done: Result<(), PageError>)
        requires
            old(self).valid(),
        ensures
            final(self).valid(),
            final(self).disk().reliable() == old(self).disk().reliable(),
            old(self)@.resident(id) && old(self).disk().reliable() ==> done is Ok,
            match done {
                Ok(()) => {
                    &&& old(self)@.resident(id)
                    &&& final(self)@ == old(self)@.cleaned(id)
                    &&& final(self).store() == old(self).store().written(old(self)@.page(id))
                },
                Err(e) => {
                    &&& final(self)@ == old(self)@
                    &&& if old(self)@.resident(id) {
                        !old(self).disk().reliable() && final(self).store() == old(
                            self).store().refusing(e)
                    } else {
                        e == PageError::PageNotFound && final(self).store() == old(self).store()
                    }
                },
            },
    {
        let ghost start = self@;
        let resident = match self.page_table.get(&id) {
            Some(frame_id) => Some(*frame_id),
            None => None,
        };
        if let Some(frame_id) = resident {
            if let Some(page) = self.pages[frame_id as usize].as_mut() {
                if let Err(e) = self.disk_manager.write_page(page) {
                    proof {
                        assert(self@.frames =~= start.frames);
                    }
                    return Err(e);
                }
                page.is_dirty = false;
            }
            proof {
                start.lemma_cleaned(id);
                assert(self@.frames =~= start.cleaned(id).frames);
                assert(self@ == start.cleaned(id));
            }
            Ok(())
        } else {
            Err(PageError::PageNotFound)
        }
    }

    /// Deletes the resident page `id`, which nobody may hold: its frame
    /// becomes empty and free, and the store retires the identifier. The page
    /// is not written to the store.
    pub fn delete_page(&mut self, id: PageId) -> (done: Result<(), PageError>)
        requires
            old(self).valid(),
        ensures
            final(self).valid(),
            final(self).disk().reliable() == old(self).disk().reliable(),
            old(self)@.resident(id) && old(self)@.page(id).pin_count > 0 ==> (done matches Err(
                PageError::PageStillInUse,
            )),
            old(self)@.resident(id) && old(self)@.page(id).pin_count == 0 ==> done is Ok,
            match done {
                Ok(()) => {
                    &&& old(self)@.resident(id)
                    &&& old(self)@.page(id).pin_count == 0
                    &&& final(self)@ == old(self)@.deleted(id)
                    &&& final(self).store() == old(self).disk().retired(id)
                    &&& final(self).store().pages == old(self).store().pages.remove(id)
                    &&& final(self).store().issued.insert(id) == old(self).store().issued.insert(
                        id,
                    )
                },
                Err(e) => {
                    &&& final(self)@ == old(self)@
                    &&& final(self).store() == old(self).store()
                    &&& if old(self)@.resident(id) {
                        old(self)@.page(id).pin_count > 0 && e == PageError::PageStillInUse
                    } else {
                        e == PageError::PageNotFound
                    }
                },
            },
    {
        let ghost start = self@;
        let resident = match self.page_table.get(&id) {
            Some(frame_id) => Some(*frame_id),
            None => None,
        };
        if let Some(frame_id) = resident {
            if let Some(page) = self.pages[frame_id as usize].as_ref() {
                if page.pin_count > 0 {
                    return Err(PageError::PageStillInUse);
                }
            }
            self.replacer.pin(frame_id);
            self.disk_manager.deallocate_page(id);
            self.free_list.push_back(frame_id);
            self.page_table.remove(&id);
            self.pages[frame_id as usize] = None;
            proof {
                start.lemma_deleted(id);
                assert(self@.frames =~= start.deleted(id).frames);
                assert(self@ == start.deleted(id));
                assert forall|other: PageId| #[trigger]
                    self@.table.contains_key(other) implies self.store().issued.contains(
                    other,
                ) by {
                    assert(old(self).store().issued.insert(id).contains(other));
                    assert(self.store().issued.insert(id).contains(other));
                }
            }
            Ok(())
        } else {
            Err(PageError::PageNotFound)
        }
    }

    /// Writes every resident page to the store, in the order of the frames,
    /// and marks it clean. Stops at the first page that the store refuses,
    /// with the store's error: the pages before it are written and clean,
    /// that page and those after it are as they were.
    pub fn flush_all_pages(&mut self) -> (done: Result<(), PageError>)
        requires
            old(self).valid(),
        ensures
            final(self).valid(),
            final(self).disk().reliable() == old(self).disk().reliable(),
            old(self).disk().reliable() ==> done is Ok,
            match done {
                Ok(()) => {
                    &&& final(self)@ == old(self)@.cleaned_before(MAX_POOL_SIZE as int)
                    &&& final(self).store() == old(self).store().saved_before(
                        old(self)@.frames,
                        MAX_POOL_SIZE as int,
                    )
                },
                Err(e) => exists|refused: int|
                    {
                        &&& 0 <= refused < MAX_POOL_SIZE
                        &&& old(self)@.frames[refused] is Some
                        &&& final(self)@ == old(self)@.cleaned_before(refused)
                        &&& final(self).store() == (#[trigger] old(self).store().saved_before(
                            old(self)@.frames,
                            refused,
                        )).refusing(e)
                    },
            },
    {
        let ghost start = self@;
        let ghost store = self.store();
        let mut index: usize = 0;
        proof {
            assert(self@.frames =~= start.cleaned_before(0).frames);
        }
        while index < self.pages.len()
            invariant
                start == old(self)@,
                store == old(self).store(),
                start.valid(),
                index <= MAX_POOL_SIZE,
                self.pages.len() == MAX_POOL_SIZE,
                self.valid(),
                self.disk().reliable() == old(self).disk().reliable(),
                self@ == start.cleaned_before(index as int),
                self.store() == store.saved_before(start.frames, index as int),
            decreases MAX_POOL_SIZE - index,
        {
            let ghost before = self@;
            if let Some(page) = self.pages[index].as_mut() {
                proof {
                    assert(before.frames[index as int] is Some);
                }
                if let Err(e) = self.disk_manager.write_page(page) {
                    proof {
                        assert(self@.frames =~= before.frames);
                    }
                    return Err(e);
                }
                page.is_dirty = false;
            }
            proof {
                start.lemma_cleaned_before(index + 1);
                let after = start.cleaned_before(index + 1);
                assert(before.frames[index as int] == start.frames[index as int]);
                assert forall|f: int| 0 <= f < MAX_POOL_SIZE implies self@.frames[f]
                    == after.frames[f] by {
                    if f != index {
                        assert(self@.frames[f] == before.frames[f]);
                    }
                }
                assert(self@.frames =~= after.frames);
            }
            index += 1;
        }
        Ok(())
    }

    /// The backing store.
    pub fn disk_manager(&self) -> (disk: &D)
        ensures
            *disk == self.disk(),
    {
        &self.disk_manager
    }

    /// The number of free frames.
    pub fn free_frames(&self) -> (count: usize)
        ensures
            count == self@.free.len(),
    {
        self.free_list.len()
    }

    /// The frame of the page `id`, if it is resident.
    pub fn frame_of(&self, id: PageId) -> (frame: Option<FrameId>)
        ensures
            frame == if self@.resident(id) {
                Some(self@.table[id])
            } else {
                None
            },
    {
        match self.page_table.get(&id) {
            Some(frame_id) => Some(*frame_id),
            None => None,
        }
    }

    /// The page in frame `frame`, if the pool has that frame and a page is in
    /// it.
    pub fn page_at(&self, frame: usize) -> (page: Option<&Page>)
        ensures
            match page {
                Some(page) => frame < self@.frames.len() && self@.frames[frame as int] == Some(
                    *page,
                ),
                None => frame >= self@.frames.len() || self@.frames[frame as int] is None,
            },
    {
        if frame < self.pages.len() {
            match self.pages[frame].as_ref() {
                Some(page) => Some(page),
                None => None,
            }
        } else {
            None
        }
    }
}

/// What the pool and its store hold, as it is reported.
pub struct Response {
    /// The identifiers of the stored pages, ascending.
    pub pages_in_disk: Vec<PageId>,
    /// The number of frames.
    pub max_pool_size: i32,
    /// The frame of every resident page.
    pub page_table: HashMap<PageId, FrameId>,
    /// The clock.
    pub clock_replacer: ClockReplacerRep,
    /// The number of identifiers that the in-memory store gives out.
    pub max_disk_num_pages: i32,
    /// The number of holders of every resident page.
    pub pin_count: HashMap<i32, i32>,
}

impl Pool {
    /// The number of holders of every resident page in the first `count`
    /// frames.
    pub open spec fn pin_counts(self, count: int) -> Map<PageId, i32> {
        Map::new(
            |id: PageId| self.resident(id) && self.table[id] < count,
            |id: PageId| self.page(id).pin_count,
        )
    }
}

impl Response {
    /// Whether this is the report of `pool` in front of `store`: the stored
    /// identifiers in ascending order, the page table, the clock with its
    /// hand, the holders of every resident page, and the two sizes.
    pub open spec fn describes(&self, pool: Pool, store: Store) -> bool {
        &&& self.pages_in_disk@.to_set() == store.pages.dom()
        &&& forall|i: int, j: int|
            0 <= i < j < self.pages_in_disk@.len() ==> self.pages_in_disk@[i]
                < self.pages_in_disk@[j]
        &&& self.max_pool_size == MAX_POOL_SIZE
        &&& self.page_table@ == pool.table
        &&& self.clock_replacer.entries() == pool.clock.entries
        &&& self.clock_replacer.clock_hand == pool.clock.hand as i32
        &&& self.max_disk_num_pages == MAX_NUM_DISK_PAGES
        &&& self.pin_count@ == pool.pin_counts(MAX_POOL_SIZE as int)
    }
}

impl<D: DiskManager> BufferPoolManager<D> {

    /// Reports the stored pages, the page table, the clock and the holders of
    /// every resident page.
    pub fn response(&self) -> (report: Response)
        requires
            self.valid(),
        ensures
            report.describes(self@, self.store()),
    {
        let mut pin_count: HashMap<PageId, i32> = HashMap::new();
        let mut index: usize = 0;
        proof {
            assert(pin_count@ =~= self@.pin_counts(0));
        }
        while index < self.pages.len()
            invariant
                self.valid(),
                index <= MAX_POOL_SIZE,
                self.pages.len() == MAX_POOL_SIZE,
                pin_count@ == self@.pin_counts(index as int),
            decreases MAX_POOL_SIZE - index,
        {
            if let Some(page) = self.pages[index].as_ref() {
                proof {
                    assert(self@.frames[index as int] is Some);
                }
                pin_count.insert(page.id, page.pin_count);
            }
            proof {
                assert(pin_count@ =~= self@.pin_counts(index + 1));
            }
            index += 1;
        }
        Response {
            pages_in_disk: self.disk_manager.pages_on_disk(),
            max_pool_size: MAX_POOL_SIZE as i32,
            page_table: self.page_table.clone(),
            clock_replacer: self.replacer.response(),
            max_disk_num_pages: MAX_NUM_DISK_PAGES,
            pin_count,
        }
    }
}

} // verus!
