//! The namespace catalog of one storage environment: each name maps to a
//! shared, lock-guarded namespace and its shared watcher registry, created
//! on first open and never dropped. Every handle opened under one name
//! holds the same lock and the same registry, so all handles observe the
//! same committed state and the same watchers.

use crate::channel::arc_clone;
use crate::errors::{convert_error, Error, StoreFault};
use crate::order::bytes_eq;
use crate::store::StoreMap;
use crate::watch::WatchRegistry;
use std::sync::Arc;
use vstd::prelude::*;
use vstd::rwlock::{RwLock, RwLockPredicate};
use vstd::slice::slice_to_vec;

verus! {

/// The lock predicate of one namespace: its store is well-formed.
pub struct SpacePred {}

impl RwLockPredicate<StoreMap> for SpacePred {
    open spec fn inv(self, s: StoreMap) -> bool {
        s.wf()
    }
}

/// One catalog entry: a named namespace, its store behind the write lock
/// that serializes its writers, and the watcher registry all its handles
/// share.
pub struct CatalogEntry {
    pub name: Vec<u8>,
    pub store: Arc<RwLock<StoreMap, SpacePred>>,
    pub watchers: Arc<WatchRegistry>,
}

/// All namespaces of one environment.
/// The vector is exposed for specification; every operation requires and
/// preserves `wf`.
pub struct Catalog {
    pub spaces: Vec<CatalogEntry>,
}

impl Catalog {
    /// Well-formed: names are unique, so one name always resolves to one
    /// shared namespace.
    pub open spec fn wf(self) -> bool {
        forall|i: int, j: int|
            0 <= i < j < self.spaces@.len() ==> self.spaces@[i].name@ != self.spaces@[j].name@
    }

    /// The names in the catalog, in creation order.
    pub open spec fn names(self) -> Seq<Seq<u8>> {
        self.spaces@.map_values(|e: CatalogEntry| e.name@)
    }

    /// Some namespace carries this name.
    pub open spec fn has_space(self, name: Seq<u8>) -> bool {
        exists|i: int| 0 <= i < self.names().len() && self.names()[i] == name
    }

    pub fn new() -> (r: Catalog)
        ensures
            r.wf(),
            r.names() == Seq::<Seq<u8>>::empty(),
    {
        let r = Catalog { spaces: Vec::new() };
        proof {
            assert(r.names() =~= Seq::<Seq<u8>>::empty());
        }
        r
    }

    /// Open the namespace of this name, creating it empty when absent, and
    /// hand out its shared store lock and watcher registry; refused exactly
    /// when a new namespace would exceed the bound `max`.
    pub fn find_or_create(&mut self, name: &[u8], max: usize) -> (r: Result<
        (Arc<RwLock<StoreMap, SpacePred>>, Arc<WatchRegistry>),
        Error,
    >)
        requires
            old(self).wf(),
        ensures
            final(self).wf(),
            match r {
                Ok(h) => {
                    &&& exists|i: int|
                        {
                            &&& 0 <= i < final(self).spaces@.len()
                            &&& (#[trigger] final(self).spaces@[i]).name@ == name@
                            &&& final(self).spaces@[i].store == h.0
                            &&& final(self).spaces@[i].watchers == h.1
                        }
                    &&& (old(self).has_space(name@) ==> final(self).spaces@ == old(self).spaces@)
                    &&& (!old(self).has_space(name@) ==> final(self).names() == old(
                        self,
                    ).names().push(name@))
                },
                Err(e) => {
                    &&& e == Error::StorageOpenError
                    &&& final(self).spaces@ == old(self).spaces@
                    &&& !old(self).has_space(name@)
                    &&& old(self).names().len() >= max
                },
            },
            (r is Ok) <==> (old(self).has_space(name@) || old(self).names().len() < max),
    {
        let ghost c0 = *self;
        let mut i: usize = 0;
        while i < self.spaces.len()
            invariant
                *self == c0,
                c0 == *old(self),
                c0.wf(),
                i <= self.spaces@.len(),
                forall|j: int| 0 <= j < i ==> self.names()[j] != name@,
            decreases self.spaces@.len() - i,
        {
            if bytes_eq(self.spaces[i].name.as_slice(), name) {
                proof {
                    assert(self.names()[i as int] == name@);
                    assert(self.has_space(name@));
                }
                return Ok((arc_clone(&self.spaces[i].store), arc_clone(
                    &self.spaces[i].watchers,
                )));
            }
            i = i + 1;
        }
        proof {
            if self.has_space(name@) {
                let w = choose|w: int| 0 <= w < self.names().len() && self.names()[w] == name@;
                assert(false);
            }
        }
        if self.spaces.len() >= max {
            return Err(convert_error(StoreFault::NamespaceLimit));
        }
        let n = self.spaces.len();
        let ghost names0 = self.names();
        let store = Arc::new(RwLock::new(StoreMap::new(), Ghost(SpacePred {  })));
        let registry = Arc::new(WatchRegistry::new());
        self.spaces.push(
            CatalogEntry {
                name: slice_to_vec(name),
                store: arc_clone(&store),
                watchers: arc_clone(&registry),
            },
        );
        proof {
            assert(self.names() =~= names0.push(name@));
            assert(self.spaces@[n as int].name@ == name@);
            assert forall|a: int, b: int|
                0 <= a < b < self.spaces@.len() implies self.spaces@[a].name@
                != self.spaces@[b].name@ by {
                if b == n {
                    assert(self.names()[a] == names0[a]);
                }
            }
        }
        Ok((store, registry))
    }
}

} // verus!
