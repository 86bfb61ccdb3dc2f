//! The engine: one opened storage environment holding the namespace
//! catalog under a lock, and the shared worker pool that runs background
//! range scans. A tree is one handle to a namespace; every handle opened
//! under one name holds the same store lock and the same watcher registry,
//! so all of them observe the same committed state. Writers to one
//! namespace serialize on its write lock; readers take a read lock and see
//! a committed snapshot.

use crate::catalog::{Catalog, SpacePred};
use crate::channel::{arc_clone, chan_bounded};
use crate::counter::{be_val, lemma_counter_step};
use crate::errors::Error;
use crate::pool::{pool_active_count, pool_execute, pool_max_count, pool_new, pool_size};
use crate::store::{lookup, StoreMap};
use crate::stream::{scan_job, PrefixStream, ScanStream};
use crate::watch::{WatchRegistry, WatchSignal};
use std::sync::Arc;
use vstd::prelude::*;
use vstd::rwlock::{RwLock, RwLockPredicate};
use vstd::slice::slice_to_vec;

verus! {

/// How many worker threads the shared scan pool keeps.
pub const POOL_WORKERS: usize = 10;

/// The most namespaces one environment may hold.
pub const MAX_NAMESPACES: usize = 128;

/// The capacity of the bounded channel a scan streams through.
pub const SCAN_CHANNEL_CAPACITY: usize = 100;

/// What a caller opens an engine with. The in-process store keeps
/// everything in memory; the path only names the environment.
pub struct Config {
    pub database_path: String,
}

/// The lock predicate of the namespace catalog: it is well-formed.
pub struct CatalogPred {}

impl RwLockPredicate<Catalog> for CatalogPred {
    open spec fn inv(self, c: Catalog) -> bool {
        c.wf()
    }
}

/// One opened storage environment.
pub struct Engine {
    pub catalog: RwLock<Catalog, CatalogPred>,
    pub pool: threadpool::ThreadPool,
}

impl Engine {
    /// Open an environment: an empty catalog and the shared scan pool with
    /// its fixed worker count. The in-process store cannot fail to open.
    pub fn open(config: &Config) -> (r: Result<Arc<Engine>, Error>)
        ensures
            r is Ok,
            r matches Ok(en) ==> pool_size(en.pool) == POOL_WORKERS,
    {
        let _named_by = &config.database_path;
        let catalog = RwLock::new(Catalog::new(), Ghost(CatalogPred {  }));
        let pool = pool_new(POOL_WORKERS);
        Ok(Arc::new(Engine { catalog, pool }))
    }

    /// Open the namespace called `name`, creating it when absent. The
    /// handle shares the namespace's store lock and watcher registry with
    /// every other handle of the same name, and this engine's worker pool.
    /// Refused exactly when a new namespace would exceed the bound.
    pub fn open_tree(self: &Arc<Self>, name: &[u8]) -> (r: Result<EngineTree, Error>)
        ensures
            r matches Err(e) ==> e == Error::StorageOpenError,
    {
        let (mut c, handle) = self.catalog.acquire_write();
        let res = c.find_or_create(name, MAX_NAMESPACES);
        handle.release_write(c);
        match res {
            Ok((store, watchers)) => Ok(
                EngineTree { engine: arc_clone(self), store, watchers },
            ),
            Err(e) => Err(e),
        }
    }

    /// Force a durable sync of all committed writes. The in-process store
    /// holds its committed state directly; the sync cannot fail.
    pub fn flush(self: &Arc<Self>) -> (r: Result<(), Error>)
        ensures
            r is Ok,
    {
        Ok(())
    }

    /// How many scan jobs the shared pool is executing at this moment.
    pub fn active_scan_workers(&self) -> usize {
        pool_active_count(&self.pool)
    }
}

/// One handle to a namespace: point operations inside short-lived critical
/// sections of the namespace's own lock, scans offloaded to the worker
/// pool, watchers on the registry every handle of this namespace shares.
pub struct EngineTree {
    pub engine: Arc<Engine>,
    pub store: Arc<RwLock<StoreMap, SpacePred>>,
    pub watchers: Arc<WatchRegistry>,
}

impl EngineTree {
    /// Read the value at `key` from a snapshot of the committed state.
    pub fn get(&self, key: &[u8]) -> (r: Result<Option<Vec<u8>>, Error>)
        ensures
            r is Ok,
    {
        let handle = self.store.acquire_read();
        let value = handle.borrow().get(key);
        handle.release_read();
        Ok(value)
    }

    /// Upsert `(key, value)` in one write transaction, then wake the
    /// watchers this key matches, on this calling thread; the wake comes
    /// strictly after the store update is committed (the lock released).
    pub fn insert(&self, key: &[u8], value: &[u8]) -> (r: Result<(), Error>)
        ensures
            r is Ok,
    {
        let (mut sm, handle) = self.store.acquire_write();
        sm.insert(slice_to_vec(key), slice_to_vec(value));
        handle.release_write(sm);
        self.watchers.wake(key);
        Ok(())
    }

    /// Delete `key` in one write transaction; a no-op when absent. Does
    /// not wake watchers.
    pub fn remove(&self, key: &[u8]) -> (r: Result<(), Error>)
        ensures
            r is Ok,
    {
        let (mut sm, handle) = self.store.acquire_write();
        sm.remove(key);
        handle.release_write(sm);
        Ok(())
    }

    /// In one write transaction: read the stored count at `key` (absence
    /// counts as zero), write back its eight-byte big-endian successor,
    /// and return it. The namespace's write lock serializes concurrent
    /// increments, so each one returns a fresh, strictly larger count. The
    /// one failure is a count already at the largest value eight bytes can
    /// hold.
    pub fn increment(&self, key: &[u8]) -> (r: Result<Vec<u8>, Error>)
        ensures
            r matches Ok(v) ==> v@.len() == 8 && be_val(v@) >= 1,
            r matches Err(e) ==> e == Error::TransactionError,
    {
        let (mut sm, handle) = self.store.acquire_write();
        let ghost sm0 = sm;
        let res = sm.increment(key);
        handle.release_write(sm);
        proof {
            if res is Ok {
                lemma_counter_step(lookup(sm0@, key@));
            }
        }
        res
    }

    /// A full ascending scan of the namespace.
    pub fn iter(&self) -> (r: ScanStream)
        ensures
            r.request_from@ == Seq::<u8>::empty(),
            r.request_backwards@ == false,
    {
        let empty: Vec<u8> = Vec::new();
        self.iter_from(empty.as_slice(), false)
    }

    /// An ordered scan: ascending from the first key at or above `from`
    /// (everything, when `from` is empty), or descending from the last key
    /// at or below `from`. The scan runs on a worker thread against its
    /// own read snapshot of this namespace and streams through a bounded
    /// channel; a spare pool worker takes it, otherwise an ephemeral
    /// thread, so a caller is never queued behind a saturated pool.
    pub fn iter_from(&self, from: &[u8], backwards: bool) -> (r: ScanStream)
        ensures
            r.request_from@ == from@,
            r.request_backwards@ == backwards,
    {
        let (tx, rx) = chan_bounded::<(Vec<u8>, Vec<u8>)>(SCAN_CHANNEL_CAPACITY);
        let store = arc_clone(&self.store);
        let from_v = slice_to_vec(from);
        let active = pool_active_count(&self.engine.pool);
        let max = pool_max_count(&self.engine.pool);
        if active < max {
            pool_execute(&self.engine.pool, move || scan_job(store, from_v, backwards, tx));
        } else {
            let overflow = pool_new(1);
            pool_execute(&overflow, move || scan_job(store, from_v, backwards, tx));
        }
        ScanStream { rx, request_from: Ghost(from@), request_backwards: Ghost(backwards) }
    }

    /// An ascending scan over exactly the keys that start with `prefix`,
    /// ended at the first key that no longer does.
    pub fn scan_prefix(&self, prefix: &[u8]) -> (r: PrefixStream)
        ensures
            r.prefix@ == prefix@,
            r.inner.request_from@ == prefix@,
            r.inner.request_backwards@ == false,
    {
        PrefixStream {
            inner: self.iter_from(prefix, false),
            prefix: slice_to_vec(prefix),
            done: false,
        }
    }

    /// Register a single-shot watcher on this namespace: its signal
    /// completes the first time a key carrying `prefix` is inserted
    /// through any handle of the namespace, strictly after registration.
    pub fn watch_prefix(&self, prefix: &[u8]) -> WatchSignal {
        self.watchers.watch(prefix)
    }
}

} // verus!
