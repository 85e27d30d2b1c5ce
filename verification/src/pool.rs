//! What the page cache holds, as a value: the frames, the free list, the page
//! table and the clock, and how each operation changes them.

use vstd::prelude::*;
use crate::disk::Store;
use crate::page::{FrameId, Page, PageId};
use crate::replacer::Clock;

verus! {

/// The number of frames of the pool.
pub const MAX_POOL_SIZE: usize = 4;

/// The bookkeeping of the page cache.
#[verifier::ext_equal]
pub struct Pool {
    /// The frames, each empty or holding one page.
    pub frames: Seq<Option<Page>>,
    /// The frames that a miss takes first, in the order of taking.
    pub free: Seq<FrameId>,
    /// The frame of every resident page.
    pub table: Map<PageId, FrameId>,
    /// The frames that may be evicted.
    pub clock: Clock,
}

impl Store {
    /// The store after `page`, if there is one, was written.
    pub open spec fn saved(self, page: Option<Page>) -> Store {
        match page {
            Some(page) => self.written(page),
            None => self,
        }
    }
}

impl Store {
    /// The store after the pages in the first `count` of `frames` were
    /// written, in the order of the frames.
    pub open spec fn saved_before(self, frames: Seq<Option<Page>>, count: int) -> Store
        decreases count,
    {
        if count <= 0 {
            self
        } else {
            self.saved_before(frames, count - 1).saved(frames[count - 1])
        }
    }
}

impl Pool {
    /// The pool before any page came in: every frame empty and free.
    pub open spec fn empty() -> Pool {
        Pool {
            frames: Seq::new(MAX_POOL_SIZE as nat, |f: int| None),
            free: Seq::new(MAX_POOL_SIZE as nat, |f: int| f as FrameId),
            table: Map::empty(),
            clock: Clock::empty(),
        }
    }

    /// Whether the page `id` is in a frame.
    pub open spec fn resident(self, id: PageId) -> bool {
        self.table.contains_key(id)
    }

    /// The resident page `id`.
    pub open spec fn page(self, id: PageId) -> Page
        recommends
            self.resident(id),
    {
        self.frames[self.table[id] as int]->0
    }

    /// Whether the frame `f` is in order: where it holds a page, the table
    /// sends that page to it, and the clock tracks it if nobody holds the
    /// page; where it is empty, it is free, or it is the frame `spare`.
    pub open spec fn settled(self, f: int, spare: Option<FrameId>) -> bool {
        match self.frames[f] {
            Some(page) => {
                &&& page.pin_count >= 0
                &&& self.table.contains_key(page.id)
                &&& self.table[page.id] == f
                &&& page.pin_count == 0 ==> self.clock.frames().contains(f as FrameId)
            },
            None => spare == Some(f as FrameId) || self.free.contains(f as FrameId),
        }
    }

    /// The pool is in order, but for the frame `spare` where there is one:
    /// that frame is empty and not free, as it is while a miss has taken it
    /// and not yet filled it.
    ///
    /// In order means: the free frames are exactly the empty frames, each
    /// once; every other frame holds the page that the table sends to it, and
    /// the table knows no other page; the clock tracks exactly the frames
    /// whose page nobody holds.
    pub open spec fn valid_but(self, spare: Option<FrameId>) -> bool {
        &&& self.frames.len() == MAX_POOL_SIZE
        &&& self.clock.valid()
        &&& self.free.no_duplicates()
        &&& spare matches Some(f) ==> 0 <= f < MAX_POOL_SIZE
        &&& forall|f: FrameId| #[trigger]
            self.free.contains(f) ==> 0 <= f < MAX_POOL_SIZE && self.frames[f as int] is None
                && spare != Some(f)
        &&& forall|f: FrameId| #[trigger]
            self.clock.frames().contains(f) ==> 0 <= f < MAX_POOL_SIZE && self.frames[f as int]
                is Some && self.frames[f as int]->0.pin_count == 0
        &&& forall|f: int|
            #![trigger self.frames[f]]
            0 <= f < MAX_POOL_SIZE ==> self.settled(f, spare)
        &&& forall|id: PageId| #[trigger]
            self.table.contains_key(id) ==> {
                let f = self.table[id];
                &&& 0 <= f < MAX_POOL_SIZE
                &&& self.frames[f as int] is Some
                &&& self.frames[f as int]->0.id == id
            }
    }

    /// The pool is in order: every frame is free, tracked by the clock, or
    /// holds a page that somebody holds, and is so in one way only.
    pub open spec fn valid(self) -> bool {
        self.valid_but(None)
    }

    /// The frame that a miss takes: the first free frame, or the clock's
    /// victim where no frame is free.
    pub open spec fn chosen(self) -> Option<FrameId> {
        if self.free.len() > 0 {
            Some(self.free[0])
        } else {
            self.clock.victim()
        }
    }

    /// The pool after the frame for a miss was picked.
    pub open spec fn reserved(self) -> Pool {
        if self.free.len() > 0 {
            Pool { free: self.free.drop_first(), ..self }
        } else {
            Pool { clock: self.clock.evicted(), ..self }
        }
    }

    /// The pool after the page in `frame`, if any, has left.
    pub open spec fn vacated(self, frame: FrameId) -> Pool {
        Pool {
            frames: self.frames.update(frame as int, None),
            table: match self.frames[frame as int] {
                Some(page) => self.table.remove(page.id),
                None => self.table,
            },
            ..self
        }
    }

    /// The pool after a miss has taken its frame.
    pub open spec fn taken(self) -> Pool {
        match self.chosen() {
            Some(frame) => self.reserved().vacated(frame),
            None => self,
        }
    }

    /// The pool with `frame` as the last of the free frames.
    pub open spec fn freed(self, frame: FrameId) -> Pool {
        Pool { free: self.free.push(frame), ..self }
    }

    /// The pool after a miss that brought no page in: the frame that it took
    /// is empty and the last of the free frames.
    pub open spec fn given_back(self) -> Pool {
        match self.chosen() {
            Some(frame) => self.taken().freed(frame),
            None => self,
        }
    }

    /// The page in `frame`, if there is one and it is dirty.
    pub open spec fn dirty_in(self, frame: FrameId) -> Option<Page> {
        match self.frames[frame as int] {
            Some(page) => if page.is_dirty {
                Some(page)
            } else {
                None
            },
            None => None,
        }
    }

    /// The page that leaves for a miss and has to be written back first.
    pub open spec fn outgoing(self) -> Option<Page> {
        match self.chosen() {
            Some(frame) => self.dirty_in(frame),
            None => None,
        }
    }

    /// The pool with `page` in `frame` in place of what was there.
    pub open spec fn with_page(self, frame: FrameId, page: Page) -> Pool {
        Pool { frames: self.frames.update(frame as int, Some(page)), ..self }
    }

    /// The pool after `page` came into `frame`.
    pub open spec fn installed(self, frame: FrameId, page: Page) -> Pool {
        Pool {
            frames: self.frames.update(frame as int, Some(page)),
            table: self.table.insert(page.id, frame),
            ..self
        }
    }

    /// The pool after the resident page `id` got one more holder.
    pub open spec fn pinned(self, id: PageId) -> Pool
        recommends
            self.resident(id),
    {
        let page = self.page(id);
        Pool {
            frames: self.frames.update(
                self.table[id] as int,
                Some(Page { pin_count: (page.pin_count + 1) as i32, ..page }),
            ),
            clock: self.clock.pinned(self.table[id]),
            ..self
        }
    }

    /// The pool after a holder gave up the resident page `id`, saying whether
    /// the bytes were changed.
    pub open spec fn unpinned(self, id: PageId, is_dirty: bool) -> Pool
        recommends
            self.resident(id),
    {
        let page = self.page(id).released();
        Pool {
            frames: self.frames.update(
                self.table[id] as int,
                Some(Page { is_dirty: page.is_dirty || is_dirty, ..page }),
            ),
            clock: if page.pin_count == 0 {
                self.clock.unpinned(self.table[id])
            } else {
                self.clock
            },
            ..self
        }
    }

    /// The pool after the resident page `id` was written to the store.
    pub open spec fn cleaned(self, id: PageId) -> Pool
        recommends
            self.resident(id),
    {
        Pool {
            frames: self.frames.update(
                self.table[id] as int,
                Some(Page { is_dirty: false, ..self.page(id) }),
            ),
            ..self
        }
    }

    /// The pool after the pages in the first `count` frames were written to
    /// the store.
    pub open spec fn cleaned_before(self, count: int) -> Pool {
        Pool {
            frames: Seq::new(
                self.frames.len(),
                |f: int|
                    match self.frames[f] {
                        Some(page) => if f < count {
                            Some(Page { is_dirty: false, ..page })
                        } else {
                            Some(page)
                        },
                        None => None,
                    },
            ),
            ..self
        }
    }

    /// The pool after the resident page `id` was deleted: its frame is empty
    /// and the last of the free frames.
    pub open spec fn deleted(self, id: PageId) -> Pool
        recommends
            self.resident(id),
    {
        Pool {
            frames: self.frames.update(self.table[id] as int, None),
            free: self.free.push(self.table[id]),
            table: self.table.remove(id),
            clock: self.clock.pinned(self.table[id]),
        }
    }
}

impl Pool {
    /// The empty pool is valid.
    pub proof fn lemma_empty_valid()
        ensures
            Pool::empty().valid(),
    {
        let pool = Pool::empty();
        assert(pool.clock.frames() =~= Seq::<FrameId>::empty());
        assert forall|f: int| 0 <= f < MAX_POOL_SIZE implies pool.settled(f, None) by {
            assert(pool.free[f] == f);
        }
    }

    /// A miss takes a frame of the pool and leaves the pool in order but for
    /// that frame. The page that was in it is resident no longer, every
    /// other page is as it was, and no page became resident.
    pub proof fn lemma_taken(self)
        requires
            self.valid(),
            self.chosen() is Some,
        ensures
            0 <= self.chosen()->0 < MAX_POOL_SIZE,
            self.free.len() > 0 ==> self.frames[self.chosen()->0 as int] is None,
            self.free.len() == 0 ==> self.frames[self.chosen()->0 as int] is Some
                && self.frames[self.chosen()->0 as int]->0.pin_count == 0,
            self.taken().valid_but(self.chosen()),
            forall|id: PageId| #[trigger]
                self.taken().resident(id) ==> self.resident(id) && self.taken().page(id)
                    == self.page(id),
            forall|id: PageId|
                self.resident(id) && self.table[id] != self.chosen()->0
                    ==> #[trigger] self.taken().resident(id),
            self.frames[self.chosen()->0 as int] matches Some(page) ==> !self.taken().resident(
                page.id,
            ) && self.resident(page.id),
    {
        let frame = self.chosen()->0;
        let after = self.taken();
        if self.free.len() > 0 {
            assert(self.free.contains(self.free[0]));
            assert forall|f: FrameId| after.free.contains(f) <==> self.free.contains(f) && f
                != frame by {
                if after.free.contains(f) {
                    let i = choose|i: int| 0 <= i < after.free.len() && after.free[i] == f;
                    assert(self.free[i + 1] == f);
                }
                if self.free.contains(f) && f != frame {
                    let i = choose|i: int| 0 <= i < self.free.len() && self.free[i] == f;
                    assert(after.free[i - 1] == f);
                }
            }
            assert forall|i: int, j: int|
                0 <= i < after.free.len() && 0 <= j < after.free.len() && i
                    != j implies after.free[i] != after.free[j] by {
                assert(self.free[i + 1] == after.free[i]);
                assert(self.free[j + 1] == after.free[j]);
            }
            assert(after.frames =~= self.frames);
        } else {
            self.clock.lemma_evicted();
            assert(self.settled(frame as int, None));
        }
    }

    /// A pool that is in order but for an empty frame is in order once that
    /// frame is free.
    pub proof fn lemma_freed(self, frame: FrameId)
        requires
            self.valid_but(Some(frame)),
            self.frames[frame as int] is None,
        ensures
            self.freed(frame).valid(),
    {
        let after = self.freed(frame);
        assert forall|f: FrameId| after.free.contains(f) <==> self.free.contains(f) || f
            == frame by {
            if after.free.contains(f) {
                let i = choose|i: int| 0 <= i < after.free.len() && after.free[i] == f;
                if i < self.free.len() {
                    assert(self.free[i] == f);
                }
            }
            if self.free.contains(f) {
                let i = choose|i: int| 0 <= i < self.free.len() && self.free[i] == f;
                assert(after.free[i] == f);
            }
            if f == frame {
                assert(after.free[self.free.len() as int] == f);
            }
        }
        assert forall|i: int, j: int|
            0 <= i < after.free.len() && 0 <= j < after.free.len() && i
                != j implies after.free[i] != after.free[j] by {
            if i < self.free.len() {
                assert(self.free.contains(self.free[i]));
            }
            if j < self.free.len() {
                assert(self.free.contains(self.free[j]));
            }
        }
    }

    /// A miss that brought no page in leaves the pool valid.
    pub proof fn lemma_given_back(self)
        requires
            self.valid(),
        ensures
            self.given_back().valid(),
    {
        if self.chosen() is Some {
            self.lemma_taken();
            self.taken().lemma_freed(self.chosen()->0);
        }
    }

    /// A held page that is not resident, coming into the frame that the pool
    /// is spared, leaves the pool valid.
    pub proof fn lemma_installed(self, frame: FrameId, page: Page)
        requires
            self.valid_but(Some(frame)),
            self.frames[frame as int] is None,
            page.pin_count > 0,
            !self.resident(page.id),
        ensures
            self.installed(frame, page).valid(),
    {
    }

    /// Changing the flag and the bytes of a page in its frame leaves the pool
    /// valid.
    pub proof fn lemma_with_page(self, frame: FrameId, page: Page)
        requires
            self.valid(),
            0 <= frame < MAX_POOL_SIZE,
            self.frames[frame as int] is Some,
            page.id == self.frames[frame as int]->0.id,
            page.pin_count == self.frames[frame as int]->0.pin_count,
        ensures
            self.with_page(frame, page).valid(),
    {
    }

    /// One more holder of a resident page leaves the pool valid.
    pub proof fn lemma_pinned(self, id: PageId)
        requires
            self.valid(),
            self.resident(id),
            self.page(id).pin_count < i32::MAX,
        ensures
            self.pinned(id).valid(),
    {
        self.clock.lemma_pinned(self.table[id]);
    }

    /// A holder giving up a resident page leaves the pool valid.
    pub proof fn lemma_unpinned(self, id: PageId, is_dirty: bool)
        requires
            self.valid(),
            self.resident(id),
        ensures
            self.unpinned(id, is_dirty).valid(),
    {
        self.clock.lemma_unpinned(self.table[id]);
    }

    /// Clearing the flag of a resident page leaves the pool valid.
    pub proof fn lemma_cleaned(self, id: PageId)
        requires
            self.valid(),
            self.resident(id),
        ensures
            self.cleaned(id).valid(),
    {
        self.lemma_with_page(self.table[id], Page { is_dirty: false, ..self.page(id) });
    }

    /// Clearing the flags of the pages in the first frames leaves the pool
    /// valid.
    pub proof fn lemma_cleaned_before(self, count: int)
        requires
            self.valid(),
        ensures
            self.cleaned_before(count).valid(),
    {
    }

    /// Deleting a resident page that nobody holds leaves the pool valid.
    pub proof fn lemma_deleted(self, id: PageId)
        requires
            self.valid(),
            self.resident(id),
            self.page(id).pin_count == 0,
        ensures
            self.deleted(id).valid(),
    {
        let frame = self.table[id];
        let emptied = Pool {
            frames: self.frames.update(frame as int, None),
            table: self.table.remove(id),
            clock: self.clock.pinned(frame),
            ..self
        };
        self.clock.lemma_pinned(frame);
        emptied.lemma_freed(frame);
        assert(self.deleted(id) == emptied.freed(frame));
    }
}

impl Pool {
    /// The frames that hold a page.
    pub open spec fn occupied(self) -> Set<FrameId> {
        Set::new(|f: FrameId| 0 <= f < MAX_POOL_SIZE && self.frames[f as int] is Some)
    }

    /// The frames whose page somebody holds.
    pub open spec fn held(self) -> Set<FrameId> {
        Set::new(
            |f: FrameId|
                0 <= f < MAX_POOL_SIZE && self.frames[f as int] is Some
                    && self.frames[f as int]->0.pin_count > 0,
        )
    }

    /// In a valid pool every frame is in exactly one of three groups: free,
    /// tracked by the clock, or held. The free frames are the empty ones, and
    /// the table sends exactly the pages of the occupied frames to their
    /// frames.
    pub proof fn lemma_partition(self, frame: FrameId)
        requires
            self.valid(),
            0 <= frame < MAX_POOL_SIZE,
        ensures
            self.free.contains(frame) || self.clock.frames().contains(frame)
                || self.held().contains(frame),
            !(self.free.contains(frame) && self.clock.frames().contains(frame)),
            !(self.free.contains(frame) && self.held().contains(frame)),
            !(self.clock.frames().contains(frame) && self.held().contains(frame)),
            self.free.contains(frame) <==> self.frames[frame as int] is None,
            self.occupied().contains(frame) <==> exists|id: PageId|
                self.resident(id) && self.table[id] == frame,
    {
        assert(self.settled(frame as int, None));
        if self.occupied().contains(frame) {
            let page = self.frames[frame as int]->0;
            assert(self.resident(page.id) && self.table[page.id] == frame);
        }
    }

    /// In a valid pool the occupied frames are never more than the pool has,
    /// and together with the free frames they are all of them.
    pub proof fn lemma_capacity(self)
        requires
            self.valid(),
        ensures
            self.occupied().finite(),
            self.occupied().len() <= MAX_POOL_SIZE,
            self.free.len() + self.occupied().len() == MAX_POOL_SIZE,
    {
        let all = Set::<FrameId>::range(0, MAX_POOL_SIZE as i32);
        vstd::set_lib::range_set_properties::<FrameId>(0, MAX_POOL_SIZE as i32);
        let free = self.free.to_set();
        self.free.unique_seq_to_set();
        assert(free.subset_of(all));
        assert(self.occupied().subset_of(all));
        vstd::set_lib::lemma_set_subset_finite(all, free);
        vstd::set_lib::lemma_set_subset_finite(all, self.occupied());
        assert(free.disjoint(self.occupied()));
        vstd::set_lib::lemma_set_disjoint_lens(free, self.occupied());
        assert forall|f: FrameId| all.contains(f) implies (free + self.occupied()).contains(f) by {
            assert(self.settled(f as int, None));
        }
        assert(free + self.occupied() =~= all);
    }

    /// A page that somebody holds is not evicted: its frame is not the one
    /// that a miss takes, and the page is resident and unchanged after the
    /// miss, whether the miss brought its page in or not.
    pub proof fn lemma_held_page_stays(self, id: PageId)
        requires
            self.valid(),
            self.resident(id),
            self.page(id).pin_count > 0,
        ensures
            !self.clock.frames().contains(self.table[id]),
            self.clock.victim() != Some(self.table[id]),
            self.chosen() != Some(self.table[id]),
            self.taken().resident(id),
            self.taken().page(id) == self.page(id),
            self.given_back().resident(id),
            self.given_back().page(id) == self.page(id),
    {
        if self.clock.entries.len() > 0 {
            self.clock.lemma_evicted();
        }
        if self.free.len() > 0 {
            assert(self.free.contains(self.free[0]));
        }
    }

    /// A dirty page that leaves for a miss was resident and held by nobody;
    /// after the miss it is resident no longer, and the store holds it as it
    /// was in its frame.
    pub proof fn lemma_outgoing_saved(self, store: Store)
        requires
            self.valid(),
            self.outgoing() is Some,
        ensures
            ({
                let page = self.outgoing()->0;
                &&& self.free.len() == 0
                &&& self.resident(page.id)
                &&& self.page(page.id) == page
                &&& page.pin_count == 0
                &&& page.is_dirty
                &&& !self.taken().resident(page.id)
                &&& store.saved(self.outgoing()).pages[page.id] == page
                &&& store.saved(self.outgoing()).allocated().pages[page.id] == page
            }),
    {
        self.lemma_taken();
    }

    /// A page that leaves for a miss and is not dirty is not written: the
    /// store is as it was.
    pub proof fn lemma_clean_page_not_saved(self, store: Store)
        requires
            self.valid(),
            self.chosen() matches Some(frame) && (self.frames[frame as int] matches Some(page)
                ==> !page.is_dirty),
        ensures
            self.outgoing() is None,
            store.saved(self.outgoing()) == store,
    {
    }

    /// Where no frame is free and somebody holds every resident page, a miss
    /// finds no frame.
    pub proof fn lemma_exhausted(self)
        requires
            self.valid(),
            self.free.len() == 0,
            forall|id: PageId| self.resident(id) ==> self.page(id).pin_count > 0,
        ensures
            self.chosen() is None,
    {
        if self.clock.entries.len() > 0 {
            self.clock.lemma_evicted();
            let frame = self.clock.victim()->0;
            assert(self.clock.frames().contains(frame));
            let page = self.frames[frame as int]->0;
            assert(self.settled(frame as int, None));
            assert(self.resident(page.id));
        }
    }

    /// A new page that was written through its handle, then flushed, is
    /// clean, and its bytes are in its frame, in the store, and in what the
    /// next fetch hands out, be the page still resident or read from the
    /// store again; either way the page that is handed out is clean.
    pub proof fn lemma_round_trip(self, store: Store, written: Page)
        requires
            self.valid(),
            self.chosen() is Some,
            written.pin_count == 1,
            !self.resident(written.id),
        ensures
            ({
                let created = self.taken().installed(self.chosen()->0, written);
                let flushed = created.cleaned(written.id);
                let fetched = flushed.pinned(written.id);
                &&& created.valid()
                &&& created.page(written.id) == written
                &&& flushed.valid()
                &&& !flushed.page(written.id).is_dirty
                &&& flushed.page(written.id).data == written.data
                &&& store.written(created.page(written.id)).pages[written.id].data == written.data
                &&& fetched.page(written.id).data == written.data
                &&& fetched.page(written.id).pin_count == 2
                &&& !fetched.page(written.id).is_dirty
                &&& store.written(created.page(written.id)).pages[written.id].read_in() == (Page {
                    pin_count: 1,
                    is_dirty: false,
                    ..written
                })
            }),
    {
        let frame = self.chosen()->0;
        self.lemma_taken();
        self.taken().lemma_installed(frame, written);
        let created = self.taken().installed(frame, written);
        created.lemma_cleaned(written.id);
    }
}

} // verus!
