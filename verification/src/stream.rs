//! The two sides of a background scan. The producer runs on a worker
//! thread: it takes a read snapshot of the range under the namespace's
//! lock, releases the lock, and pushes pair after pair into the bounded
//! channel. The consumer pulls from the channel at its own pace; a full
//! channel blocks the producer (backpressure), a dropped consumer fails
//! the next push and ends the scan at once, so no worker outlives an
//! abandoned stream for more than one pair.

use crate::catalog::SpacePred;
use crate::channel::{chan_recv, chan_send};
use crate::order::{is_prefix, starts_with_bytes};
use crate::store::StoreMap;
use std::sync::Arc;
use vstd::prelude::*;
use vstd::rwlock::RwLock;
use vstd::slice::slice_to_vec;

verus! {

/// The pull end of one background scan: a finite, non-restartable
/// sequence of key-value pairs drained from the bounded channel. The
/// ghost fields record which scan this stream serves.
pub struct ScanStream {
    pub rx: crossbeam::channel::Receiver<(Vec<u8>, Vec<u8>)>,
    pub request_from: Ghost<Seq<u8>>,
    pub request_backwards: Ghost<bool>,
}

impl ScanStream {
    /// The next pair, or None once the scan is exhausted (the producer
    /// dropped its sending end after the last pair).
    pub fn next(&mut self) -> Option<(Vec<u8>, Vec<u8>)> {
        chan_recv(&self.rx)
    }
}

/// A scan truncated at the first key that no longer carries the prefix.
pub struct PrefixStream {
    pub inner: ScanStream,
    pub prefix: Vec<u8>,
    pub done: bool,
}

impl PrefixStream {
    /// The next pair whose key carries the prefix; the stream ends for
    /// good at the first key that does not.
    pub fn next(&mut self) -> (r: Option<(Vec<u8>, Vec<u8>)>)
        ensures
            final(self).prefix@ == old(self).prefix@,
            r matches Some(p) ==> is_prefix(old(self).prefix@, p.0@),
    {
        if self.done {
            return None;
        }
        match self.inner.next() {
            Some(p) => {
                if starts_with_bytes(p.0.as_slice(), self.prefix.as_slice()) {
                    Some(p)
                } else {
                    self.done = true;
                    None
                }
            },
            None => {
                self.done = true;
                None
            },
        }
    }
}

/// One scan, run on a worker thread. The read snapshot keeps the
/// single-threaded range extraction inside one short read-lock scope; the
/// loop after it owns no lock and stops at the first failed send. The
/// shared store handle the job captures keeps the namespace alive however
/// long the scan runs.
pub(crate) fn scan_job(
    store: Arc<RwLock<StoreMap, SpacePred>>,
    from: Vec<u8>,
    backwards: bool,
    out: crossbeam::channel::Sender<(Vec<u8>, Vec<u8>)>,
) {
    let handle = store.acquire_read();
    let batch = handle.borrow().range_from(from.as_slice(), backwards);
    handle.release_read();
    let mut i: usize = 0;
    while i < batch.len()
        invariant
            i <= batch@.len(),
        decreases batch@.len() - i,
    {
        let k = slice_to_vec(batch[i].0.as_slice());
        let v = slice_to_vec(batch[i].1.as_slice());
        if !chan_send(&out, (k, v)) {
            return;
        }
        i = i + 1;
    }
}

} // verus!
