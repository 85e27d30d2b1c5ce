//! The pool's operations as a remote caller asks for them: each request
//! names an operation by its path and, where the operation needs one, a page
//! in its query. The answer is a report of the pool, or says why there is
//! none.

use vstd::prelude::*;
use crate::buffer_pool::{BufferPoolManager, Response};
use crate::disk::DiskManager;
use crate::page::{Page, PageError};
use crate::pool::MAX_POOL_SIZE;
use crate::query::{page_of, page_param};

verus! {

/// The answer to a request.
pub enum Reply {
    /// The operation was done; the report is of the pool after it.
    Report(Response),
    /// The operation needs a page and the query gives none.
    BadRequest,
    /// The pool could not do the operation.
    Failure,
    /// No operation has this method and path.
    NotFound,
}

/// The pool is valid after the request, in front of a store that is as
/// reliable as before.
pub open spec fn kept<D: DiskManager>(
    before: BufferPoolManager<D>,
    after: BufferPoolManager<D>,
) -> bool {
    &&& after.valid()
    &&& after.disk().reliable() == before.disk().reliable()
}

/// Nothing has changed in the pool or in the store.
pub open spec fn untouched<D: DiskManager>(
    before: BufferPoolManager<D>,
    after: BufferPoolManager<D>,
) -> bool {
    &&& after@ == before@
    &&& after.store() == before.store()
}

/// The store holds what it held and has refused a write.
pub open spec fn refused<D: DiskManager>(
    before: BufferPoolManager<D>,
    after: BufferPoolManager<D>,
) -> bool {
    &&& !before.disk().reliable()
    &&& exists|e: PageError| after.store() == #[trigger] before.store().refusing(e)
}

/// How a miss that brought no page in has left the pool and the store: the
/// frame that it took is empty and free, and a dirty page that left it is
/// written unless the store refused.
pub open spec fn missed<D: DiskManager>(
    before: BufferPoolManager<D>,
    after: BufferPoolManager<D>,
) -> bool {
    &&& after@ == before@.given_back()
    &&& {
        ||| after.store() == before.store().saved(before@.outgoing())
        ||| before@.outgoing() is Some && refused(before, after)
    }
}

/// What a request for a new page leaves: a report once the new page is in
/// the frame that the miss took, under the store's next identifier; a
/// failure where no frame or no identifier was to be had, or the store
/// refused the write of the page that left.
pub open spec fn created<D: DiskManager>(
    before: BufferPoolManager<D>,
    after: BufferPoolManager<D>,
    reply: Reply,
) -> bool {
    match reply {
        Reply::Report(report) => {
            let frame = before@.chosen()->0;
            let page = after@.frames[frame as int]->0;
            &&& before@.chosen() is Some
            &&& before.store().next() is Some
            &&& after@.frames[frame as int] is Some
            &&& page.is_fresh(before.store().next()->0)
            &&& after@ == before@.taken().installed(frame, page)
            &&& after.store() == before.store().saved(before@.outgoing()).allocated()
            &&& report.describes(after@, after.store())
        },
        Reply::Failure => {
            &&& missed(before, after)
            &&& {
                ||| before@.chosen() is None
                ||| before.store().next() is None
                ||| before@.outgoing() is Some && !before.disk().reliable()
            }
        },
        _ => false,
    }
}

/// Answers a request for a new page.
pub fn new_page<D: DiskManager>(bpm: &mut BufferPoolManager<D>) -> (reply: Reply)
    requires
        old(bpm).valid(),
    ensures
        kept(*old(bpm), *final(bpm)),
        created(*old(bpm), *final(bpm), reply),
{
    if let Err(_) = bpm.new_page() {
        Reply::Failure
    } else {
        proof {
            let frame = old(bpm)@.chosen()->0;
            let page = bpm@.frames[frame as int]->0;
            old(bpm)@.lemma_taken();
            assert(bpm@.frames =~= old(bpm)@.taken().installed(frame, page).frames);
        }
        Reply::Report(bpm.response())
    }
}

/// What a request to fetch a page leaves. Without a page in the query the
/// request is refused and nothing changes. A resident page gets one more
/// holder; another page comes from the store into the frame that the miss
/// takes. The request fails where no frame was to be had, the store does not
/// hold the page, or the store refused the write of the page that left.
pub open spec fn fetched<D: DiskManager>(
    before: BufferPoolManager<D>,
    after: BufferPoolManager<D>,
    query: Option<Seq<u8>>,
    reply: Reply,
) -> bool {
    match asked(query) {
        None => reply is BadRequest && untouched(before, after),
        Some(id) => match reply {
            Reply::Report(report) => {
                &&& report.describes(after@, after.store())
                &&& if before@.resident(id) {
                    after@ == before@.pinned(id) && after.store() == before.store()
                } else {
                    &&& before@.chosen() is Some
                    &&& before.store().pages.contains_key(id)
                    &&& after@ == before@.taken().installed(
                        before@.chosen()->0,
                        before.store().pages[id].read_in(),
                    )
                    &&& after.store() == before.store().saved(before@.outgoing())
                }
            },
            Reply::Failure => {
                &&& !before@.resident(id)
                &&& missed(before, after)
                &&& {
                    ||| before@.chosen() is None
                    ||| !before.store().pages.contains_key(id)
                    ||| before@.outgoing() is Some && !before.disk().reliable()
                }
            },
            _ => false,
        },
    }
}

/// The page that a query asks for; a request without a query asks for none.
pub open spec fn asked(query: Option<Seq<u8>>) -> Option<i32> {
    match query {
        Some(text) => page_of(text),
        None => None,
    }
}

/// The bytes of a query, if there is one.
pub open spec fn text_of(query: Option<&[u8]>) -> Option<Seq<u8>> {
    match query {
        Some(text) => Some(text@),
        None => None,
    }
}

/// Answers a request to fetch the page that the query names.
pub fn fetch_page<D: DiskManager>(bpm: &mut BufferPoolManager<D>, query: Option<&[u8]>) -> (reply:
    Reply)
    requires
        old(bpm).valid(),
        asked(text_of(query)) matches Some(id) ==> (old(bpm)@.resident(id) ==> old(bpm)@.page(
            id,
        ).pin_count < i32::MAX),
    ensures
        kept(*old(bpm), *final(bpm)),
        fetched(*old(bpm), *final(bpm), text_of(query), reply),
{
    if let Some(page) = page_param(query) {
        if let Err(_) = bpm.fetch_page(page) {
            Reply::Failure
        } else {
            proof {
                if old(bpm)@.resident(page) {
                    assert(bpm@.frames =~= old(bpm)@.pinned(page).frames);
                } else {
                    let frame = old(bpm)@.chosen()->0;
                    old(bpm)@.lemma_taken();
                    assert(bpm@.frames =~= old(bpm)@.taken().installed(
                        frame,
                        old(bpm).store().pages[page].read_in(),
                    ).frames);
                }
            }
            Reply::Report(bpm.response())
        }
    } else {
        Reply::BadRequest
    }
}

/// What a request to unpin a page leaves. Without a page in the query the
/// request is refused. A resident page loses one holder and keeps its flag;
/// for another page the request fails. Nothing else changes.
pub open spec fn unpinned<D: DiskManager>(
    before: BufferPoolManager<D>,
    after: BufferPoolManager<D>,
    query: Option<Seq<u8>>,
    reply: Reply,
) -> bool {
    match asked(query) {
        None => reply is BadRequest && untouched(before, after),
        Some(id) => if before@.resident(id) {
            &&& reply matches Reply::Report(report) && report.describes(after@, after.store())
            &&& after@ == before@.unpinned(id, false)
            &&& after.store() == before.store()
        } else {
            reply is Failure && untouched(before, after)
        },
    }
}

/// Answers a request to unpin the page that the query names.
pub fn unpin_page<D: DiskManager>(bpm: &mut BufferPoolManager<D>, query: Option<&[u8]>) -> (reply:
    Reply)
    requires
        old(bpm).valid(),
    ensures
        kept(*old(bpm), *final(bpm)),
        unpinned(*old(bpm), *final(bpm), text_of(query), reply),
{
    if let Some(page) = page_param(query) {
        if let Err(_) = bpm.unpin_page(page, false) {
            Reply::Failure
        } else {
            Reply::Report(bpm.response())
        }
    } else {
        Reply::BadRequest
    }
}

/// What a request to flush a page leaves. Without a page in the query the
/// request is refused. A resident page is written to the store and is clean
/// after that. The request fails, and the pool is as it was, where the page
/// is not resident or the store refused the write.
pub open spec fn flushed<D: DiskManager>(
    before: BufferPoolManager<D>,
    after: BufferPoolManager<D>,
    query: Option<Seq<u8>>,
    reply: Reply,
) -> bool {
    match asked(query) {
        None => reply is BadRequest && untouched(before, after),
        Some(id) => match reply {
            Reply::Report(report) => {
                &&& report.describes(after@, after.store())
                &&& before@.resident(id)
                &&& after@ == before@.cleaned(id)
                &&& after.store() == before.store().written(before@.page(id))
            },
            Reply::Failure => {
                &&& after@ == before@
                &&& if before@.resident(id) {
                    refused(before, after)
                } else {
                    after.store() == before.store()
                }
            },
            _ => false,
        },
    }
}

/// Answers a request to flush the page that the query names.
pub fn flush_page<D: DiskManager>(bpm: &mut BufferPoolManager<D>, query: Option<&[u8]>) -> (reply:
    Reply)
    requires
        old(bpm).valid(),
    ensures
        kept(*old(bpm), *final(bpm)),
        flushed(*old(bpm), *final(bpm), text_of(query), reply),
{
    if let Some(page) = page_param(query) {
        if let Err(_) = bpm.flush_page(page) {
            Reply::Failure
        } else {
            Reply::Report(bpm.response())
        }
    } else {
        Reply::BadRequest
    }
}

/// What a request to delete a page leaves. Without a page in the query the
/// request is refused. A resident page that nobody holds is deleted and its
/// identifier retired. The request fails, and nothing changes, where the
/// page is not resident or somebody holds it.
pub open spec fn deleted<D: DiskManager>(
    before: BufferPoolManager<D>,
    after: BufferPoolManager<D>,
    query: Option<Seq<u8>>,
    reply: Reply,
) -> bool {
    match asked(query) {
        None => reply is BadRequest && untouched(before, after),
        Some(id) => if before@.resident(id) && before@.page(id).pin_count == 0 {
            &&& reply matches Reply::Report(report) && report.describes(after@, after.store())
            &&& after@ == before@.deleted(id)
            &&& after.store() == before.disk().retired(id)
        } else {
            reply is Failure && untouched(before, after)
        },
    }
}

/// Answers a request to delete the page that the query names.
pub fn delete_page<D: DiskManager>(bpm: &mut BufferPoolManager<D>, query: Option<&[u8]>) -> (reply:
    Reply)
    requires
        old(bpm).valid(),
    ensures
        kept(*old(bpm), *final(bpm)),
        deleted(*old(bpm), *final(bpm), text_of(query), reply),
{
    if let Some(page) = page_param(query) {
        if let Err(_) = bpm.delete_page(page) {
            Reply::Failure
        } else {
            Reply::Report(bpm.response())
        }
    } else {
        Reply::BadRequest
    }
}

/// What a request to flush every page leaves: a report once every resident
/// page is written and clean; a failure where the store refused the page of
/// one frame, with the pages of the frames before it written and clean.
pub open spec fn flushed_all<D: DiskManager>(
    before: BufferPoolManager<D>,
    after: BufferPoolManager<D>,
    reply: Reply,
) -> bool {
    match reply {
        Reply::Report(report) => {
            &&& report.describes(after@, after.store())
            &&& after@ == before@.cleaned_before(MAX_POOL_SIZE as int)
            &&& after.store() == before.store().saved_before(
                before@.frames,
                MAX_POOL_SIZE as int,
            )
        },
        Reply::Failure => {
            &&& !before.disk().reliable()
            &&& exists|at: int, e: PageError|
                {
                    &&& 0 <= at < MAX_POOL_SIZE
                    &&& before@.frames[at] is Some
                    &&& after@ == before@.cleaned_before(at)
                    &&& after.store() == #[trigger] before.store().saved_before(
                        before@.frames,
                        at,
                    ).refusing(e)
                }
        },
        _ => false,
    }
}

/// Answers a request to flush every page.
pub fn flush_all<D: DiskManager>(bpm: &mut BufferPoolManager<D>) -> (reply: Reply)
    requires
        old(bpm).valid(),
    ensures
        kept(*old(bpm), *final(bpm)),
        flushed_all(*old(bpm), *final(bpm), reply),
{
    if let Err(_) = bpm.flush_all_pages() {
        Reply::Failure
    } else {
        Reply::Report(bpm.response())
    }
}

/// The operations that a request can ask for.
#[derive(Copy, Clone, Debug, PartialEq, Eq, Structural)]
pub enum Operation {
    New,
    Flush,
    Delete,
    Unpin,
    Fetch,
    FlushAll,
}

/// The operation of a request: its method is GET and its path is one of
/// `/new`, `/flush`, `/delete`, `/unpin`, `/fetch` and `/flush-all`.
pub open spec fn operation(get: bool, path: Seq<u8>) -> Option<Operation> {
    if !get {
        None
    } else if path == seq![47u8, 110u8, 101u8, 119u8] {
        Some(Operation::New)
    } else if path == seq![47u8, 102u8, 108u8, 117u8, 115u8, 104u8] {
        Some(Operation::Flush)
    } else if path == seq![47u8, 100u8, 101u8, 108u8, 101u8, 116u8, 101u8] {
        Some(Operation::Delete)
    } else if path == seq![47u8, 117u8, 110u8, 112u8, 105u8, 110u8] {
        Some(Operation::Unpin)
    } else if path == seq![47u8, 102u8, 101u8, 116u8, 99u8, 104u8] {
        Some(Operation::Fetch)
    } else if path == seq![47u8, 102u8, 108u8, 117u8, 115u8, 104u8, 45u8, 97u8, 108u8, 108u8] {
        Some(Operation::FlushAll)
    } else {
        None
    }
}

/// Whether two texts are the same bytes.
fn same(text: &[u8], other: &[u8]) -> (same: bool)
    ensures
        same == (text@ == other@),
{
    if text.len() != other.len() {
        return false;
    }
    let mut i: usize = 0;
    while i < text.len()
        invariant
            i <= text.len() == other.len(),
            forall|j: int| 0 <= j < i ==> text@[j] == other@[j],
        decreases text.len() - i,
    {
        if text[i] != other[i] {
            return false;
        }
        i += 1;
    }
    proof {
        assert(text@ =~= other@);
    }
    true
}

/// Tells which operation a request asks for.
pub fn operation_of(get: bool, path: &[u8]) -> (asked: Option<Operation>)
    ensures
        asked == operation(get, path@),
{
    if !get {
        return None;
    }
    let new: [u8; 4] = [47, 110, 101, 119];
    let flush: [u8; 6] = [47, 102, 108, 117, 115, 104];
    let delete: [u8; 7] = [47, 100, 101, 108, 101, 116, 101];
    let unpin: [u8; 6] = [47, 117, 110, 112, 105, 110];
    let fetch: [u8; 6] = [47, 102, 101, 116, 99, 104];
    let flush_all: [u8; 10] = [47, 102, 108, 117, 115, 104, 45, 97, 108, 108];
    proof {
        assert(new@ =~= seq![47u8, 110u8, 101u8, 119u8]);
        assert(flush@ =~= seq![47u8, 102u8, 108u8, 117u8, 115u8, 104u8]);
        assert(delete@ =~= seq![47u8, 100u8, 101u8, 108u8, 101u8, 116u8, 101u8]);
        assert(unpin@ =~= seq![47u8, 117u8, 110u8, 112u8, 105u8, 110u8]);
        assert(fetch@ =~= seq![47u8, 102u8, 101u8, 116u8, 99u8, 104u8]);
        assert(flush_all@ =~= seq![
            47u8,
            102u8,
            108u8,
            117u8,
            115u8,
            104u8,
            45u8,
            97u8,
            108u8,
            108u8,
        ]);
    }
    if same(path, new.as_slice()) {
        Some(Operation::New)
    } else if same(path, flush.as_slice()) {
        Some(Operation::Flush)
    } else if same(path, delete.as_slice()) {
        Some(Operation::Delete)
    } else if same(path, unpin.as_slice()) {
        Some(Operation::Unpin)
    } else if same(path, fetch.as_slice()) {
        Some(Operation::Fetch)
    } else if same(path, flush_all.as_slice()) {
        Some(Operation::FlushAll)
    } else {
        None
    }
}

/// What a request leaves: what its operation leaves, or nothing changed
/// where it asks for no operation.
pub open spec fn routed<D: DiskManager>(
    before: BufferPoolManager<D>,
    after: BufferPoolManager<D>,
    get: bool,
    path: Seq<u8>,
    query: Option<Seq<u8>>,
    reply: Reply,
) -> bool {
    match operation(get, path) {
        Some(Operation::New) => created(before, after, reply),
        Some(Operation::Flush) => flushed(before, after, query, reply),
        Some(Operation::Delete) => deleted(before, after, query, reply),
        Some(Operation::Unpin) => unpinned(before, after, query, reply),
        Some(Operation::Fetch) => fetched(before, after, query, reply),
        Some(Operation::FlushAll) => flushed_all(before, after, reply),
        None => reply is NotFound && untouched(before, after),
    }
}

/// Answers a request, given whether its method is GET, its path and its
/// query.
pub fn route<D: DiskManager>(
    get: bool,
    path: &[u8],
    query: Option<&[u8]>,
    bpm: &mut BufferPoolManager<D>,
) -> (reply: Reply)
    requires
        old(bpm).valid(),
        operation(get, path@) == Some(Operation::Fetch) ==> (asked(text_of(query)) matches Some(id)
            ==> (old(bpm)@.resident(id) ==> old(bpm)@.page(id).pin_count < i32::MAX)),
    ensures
        kept(*old(bpm), *final(bpm)),
        routed(*old(bpm), *final(bpm), get, path@, text_of(query), reply),
{
    match operation_of(get, path) {
        Some(Operation::New) => new_page(bpm),
        Some(Operation::Flush) => flush_page(bpm, query),
        Some(Operation::Delete) => delete_page(bpm, query),
        Some(Operation::Unpin) => unpin_page(bpm, query),
        Some(Operation::Fetch) => fetch_page(bpm, query),
        Some(Operation::FlushAll) => flush_all(bpm),
        None => Reply::NotFound,
    }
}

} // verus!
