//! Change notification: single-shot prefix watchers. A watcher is a byte
//! prefix paired with the sending end of a one-slot channel; a wake after a
//! successful write completes exactly the watchers whose prefix the written
//! key carries, and removes them. The registry's lock is held only for
//! registration and for the wake scan, never across a store transaction.

use crate::channel::{chan_bounded, chan_recv, chan_send, chan_try_recv};
use crate::order::{is_prefix, starts_with_bytes};
use vstd::prelude::*;
use vstd::rwlock::{RwLock, RwLockPredicate};
use vstd::slice::slice_to_vec;

verus! {

/// One pending subscription: fires once for the first write whose key
/// carries `prefix`.
pub struct Watcher {
    pub prefix: Vec<u8>,
    pub signal: crossbeam::channel::Sender<()>,
}

/// The watcher fires for this key.
pub open spec fn watcher_matches(w: Watcher, key: Seq<u8>) -> bool {
    is_prefix(w.prefix@, key)
}

/// Split a watcher table by one written key: the first part holds exactly
/// the watchers the key fires, the second exactly those it leaves pending,
/// each in their original order.
pub fn split_matching(v: Vec<Watcher>, key: &[u8]) -> (r: (Vec<Watcher>, Vec<Watcher>))
    ensures
        r.0@ == v@.filter(|w: Watcher| watcher_matches(w, key@)),
        r.1@ == v@.filter(|w: Watcher| !watcher_matches(w, key@)),
{
    let ghost fires = |w: Watcher| watcher_matches(w, key@);
    let ghost stays = |w: Watcher| !watcher_matches(w, key@);
    let mut rest = v;
    let mut fired: Vec<Watcher> = Vec::new();
    let mut kept: Vec<Watcher> = Vec::new();
    let ghost orig = rest@;
    let ghost mut done = Seq::<Watcher>::empty();
    proof {
        reveal_with_fuel(Seq::<_>::filter, 1);
        assert(done.filter(fires) =~= fired@);
        assert(done.filter(stays) =~= kept@);
        assert(orig =~= done + rest@);
    }
    while rest.len() > 0
        invariant
            orig == done + rest@,
            fired@ == done.filter(fires),
            kept@ == done.filter(stays),
            fires == (|w: Watcher| watcher_matches(w, key@)),
            stays == (|w: Watcher| !watcher_matches(w, key@)),
        decreases rest@.len(),
    {
        let ghost rest0 = rest@;
        let ghost done0 = done;
        let w = rest.remove(0);
        let ghost wv = w;
        let hit = starts_with_bytes(key, w.prefix.as_slice());
        if hit {
            fired.push(w);
        } else {
            kept.push(w);
        }
        proof {
            broadcast use Seq::lemma_filter_push;

            assert(hit == fires(wv));
            assert(done0.push(wv).filter(fires) == if fires(wv) {
                done0.filter(fires).push(wv)
            } else {
                done0.filter(fires)
            });
            assert(done0.push(wv).filter(stays) == if stays(wv) {
                done0.filter(stays).push(wv)
            } else {
                done0.filter(stays)
            });
            done = done0.push(wv);
            assert(orig =~= done + rest@);
        }
    }
    proof {
        assert(orig =~= done);
        assert(v@.filter(fires) == fired@);
        assert(v@.filter(stays) == kept@);
    }
    (fired, kept)
}

/// The lock predicate of a watcher table: any table is admissible.
pub struct WatchPred {}

impl RwLockPredicate<Vec<Watcher>> for WatchPred {
    open spec fn inv(self, v: Vec<Watcher>) -> bool {
        true
    }
}

/// The per-namespace-handle registry of pending watchers.
pub struct WatchRegistry {
    table: RwLock<Vec<Watcher>, WatchPred>,
}

/// The receiving end a subscriber holds: completes at most once.
pub struct WatchSignal {
    rx: crossbeam::channel::Receiver<()>,
}

impl WatchSignal {
    /// Block until the watcher fires; false only when the registry side is
    /// gone without firing.
    pub fn wait(&self) -> bool {
        chan_recv(&self.rx).is_some()
    }

    /// Has the watcher fired yet? Never blocks.
    pub fn poll(&self) -> bool {
        chan_try_recv(&self.rx).is_some()
    }
}

impl WatchRegistry {
    pub fn new() -> WatchRegistry {
        WatchRegistry { table: RwLock::new(Vec::new(), Ghost(WatchPred {  })) }
    }

    /// Register a single-shot watcher for `prefix` and hand its signal out.
    pub fn watch(&self, prefix: &[u8]) -> WatchSignal {
        let (tx, rx) = chan_bounded::<()>(1);
        let (mut v, handle) = self.table.acquire_write();
        v.push(Watcher { prefix: slice_to_vec(prefix), signal: tx });
        handle.release_write(v);
        WatchSignal { rx }
    }

    /// Complete every watcher whose prefix `key` carries, and drop it from
    /// the table; the signals are sent after the lock is released.
    pub fn wake(&self, key: &[u8]) {
        let (v, handle) = self.table.acquire_write();
        let (fired, kept) = split_matching(v, key);
        handle.release_write(kept);
        let mut i: usize = 0;
        while i < fired.len()
            decreases fired@.len() - i,
        {
            let _delivered = chan_send(&fired[i].signal, ());
            i = i + 1;
        }
    }
}

} // verus!
