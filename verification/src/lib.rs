//! An in-process key-value storage core: named, independently ordered
//! namespaces of byte keys and byte values, with point operations, an
//! atomic big-endian counter, ordered range iteration streamed through a
//! bounded channel from a worker thread, and single-shot prefix watchers.

pub mod catalog;
pub mod channel;
pub mod counter;
pub mod engine;
pub mod errors;
pub mod laws;
pub mod order;
pub mod pool;
pub mod store;
pub mod stream;
pub mod watch;
