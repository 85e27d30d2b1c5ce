//! A fixed-capacity page cache in front of a backing page store.
//!
//! The cache keeps a bounded number of frames in memory, knows which page is
//! in which frame, never evicts a page that somebody holds, and writes a
//! changed page back to the store before its frame is used again.
//!
//! - `page`: pages, identifiers and errors.
//! - `replacer`: the clock that picks the frame to give up.
//! - `disk`: what the cache asks of a backing store, and a store in memory.
//! - `pool`: the bookkeeping of the cache as a value, with what holds of it.
//! - `buffer_pool`: the cache itself.
//! - `query`: the `page` parameter of a request.
//! - `server`: the operations of the cache as a remote caller asks for them.

pub mod buffer_pool;
pub mod disk;
pub mod page;
pub mod pool;
pub mod query;
pub mod replacer;
pub mod server;
