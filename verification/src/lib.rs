//! Interning behind reference-counted handles.
//!
//! An interner keeps one allocation for each value it has been given. Interning a value
//! returns a handle into the allocation of the value that is the same as it, so equal
//! values share memory and handles can be compared by address. `RcInterner` hands out
//! handles for one thread, `ArcInterner` handles that threads can share.
//!
//! Nothing is reclaimed behind the caller's back: an entry stays until `shrink_to_fit`
//! finds that the table is its only holder.
//!
//! # Reading the contracts
//!
//! The view of an interner is the list of its entries, oldest first. An entry is a
//! handle: a value and the address of the allocation that holds it (`handle`). Values are
//! compared by `Key::same` (`key`). Over such lists, `table` says which entry stands for
//! a value (`lookup`), what interning does (`interned`) and what compaction keeps
//! (`kept`); `laws` proves what follows from these for any table and any values.

pub mod arc_handle;
pub mod arc_interner;
mod buffers;
pub mod handle;
pub mod key;
pub mod laws;
pub mod rc_handle;
pub mod rc_interner;
pub mod table;

pub use arc_handle::ArcHandle;
pub use arc_interner::ArcInterner;
pub use handle::Handle;
pub use key::Key;
pub use rc_handle::RcHandle;
pub use rc_interner::RcInterner;
