//! Pages, their identifiers and the errors of the page cache.

use vstd::prelude::*;

verus! {

/// Number of bytes in the buffer of every page.
pub const PAGE_SIZE: usize = 8;

/// Identifier of a page, given out by the backing store.
pub type PageId = i32;

/// Index of a frame of the pool.
pub type FrameId = i32;

/// What an operation of the page cache reports when it cannot be done.
#[derive(Copy, Clone, Debug, PartialEq, Eq, Structural)]
pub enum PageError {
    PageNotFound,
    PageStillInUse,
    PoolExhausted,
    OutOfStorage,
}

/// A page held in memory: its identifier, the number of holders, whether its
/// bytes differ from the stored copy, and the bytes.
#[derive(Copy, Clone, Debug)]
pub struct Page {
    pub id: PageId,
    pub pin_count: i32,
    pub is_dirty: bool,
    pub data: [u8; PAGE_SIZE],
}

impl Page {
    /// A fresh page: one holder, clean, all bytes zero.
    pub fn new(id: PageId) -> (page: Box<Page>)
        ensures
            page.is_fresh(id),
    {
        Box::new(Page { id, pin_count: 1, is_dirty: false, data: [0; PAGE_SIZE] })
    }

    /// The page's identifier.
    pub fn id(&self) -> (id: PageId)
        ensures
            id == self.id,
    {
        self.id
    }

    /// Gives up one hold on the page, if there is any, and tells whether no
    /// holder is left.
    pub fn dec_pin_count(&mut self) -> (unheld: bool)
        ensures
            *final(self) == old(self).released(),
            unheld == (final(self).pin_count == 0),
    {
        if self.pin_count > 0 {
            self.pin_count -= 1;
        }
        self.pin_count == 0
    }

    /// Whether this is the page `id` as it is first made: one holder, clean,
    /// every byte zero.
    pub open spec fn is_fresh(self, id: PageId) -> bool {
        &&& self.id == id
        &&& self.pin_count == 1
        &&& !self.is_dirty
        &&& forall|i: int| 0 <= i < PAGE_SIZE ==> self.data[i] == 0
    }

    /// The page as it comes into a frame from the store: held once and clean.
    pub open spec fn read_in(self) -> Page {
        Page { pin_count: 1, is_dirty: false, ..self }
    }

    /// The page with one hold fewer; a page that nobody holds stays as it is.
    pub open spec fn released(self) -> Page {
        if self.pin_count > 0 {
            Page { pin_count: (self.pin_count - 1) as i32, ..self }
        } else {
            self
        }
    }
}

} // verus!
