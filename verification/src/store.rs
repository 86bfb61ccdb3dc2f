//! One namespace of the store: an ordered mapping from byte keys to byte
//! values, kept as a vector of entries strictly ascending in the key order.
//! Point operations are specified against a `Map` view, range extraction
//! against the ascending sequence of entries.

use crate::counter::{increment_bytes, next_counter_value, stored_count};
use crate::errors::Error;
use crate::order::{
    bytes_eq, key_lt, lemma_lex_lt_asymmetric, lemma_lex_lt_connected, lemma_lex_lt_transitive,
    lex_le, lex_lt,
};
use vstd::prelude::*;
use vstd::slice::slice_to_vec;

verus! {

/// The views of a vector of entries: each key and value as a byte sequence.
pub open spec fn pairs_of(s: Seq<(Vec<u8>, Vec<u8>)>) -> Seq<(Seq<u8>, Seq<u8>)> {
    s.map_values(|e: (Vec<u8>, Vec<u8>)| (e.0@, e.1@))
}

/// Keys strictly ascending in the lexicographic order.
pub open spec fn sorted_pairs(s: Seq<(Seq<u8>, Seq<u8>)>) -> bool {
    forall|i: int, j: int| 0 <= i < j < s.len() ==> lex_lt(s[i].0, s[j].0)
}

/// Some entry carries the key `k`.
pub open spec fn has_key(s: Seq<(Seq<u8>, Seq<u8>)>, k: Seq<u8>) -> bool {
    exists|i: int| 0 <= i < s.len() && s[i].0 == k
}

/// The mapping the entries stand for, later entries overriding earlier ones
/// (with unique keys nothing is overridden).
pub open spec fn map_of(s: Seq<(Seq<u8>, Seq<u8>)>) -> Map<Seq<u8>, Seq<u8>>
    decreases s.len(),
{
    if s.len() == 0 {
        Map::empty()
    } else {
        map_of(s.drop_last()).insert(s.last().0, s.last().1)
    }
}

/// The stored value at `k`, if any.
pub open spec fn lookup(m: Map<Seq<u8>, Seq<u8>>, k: Seq<u8>) -> Option<Seq<u8>> {
    if m.contains_key(k) {
        Option::Some(m[k])
    } else {
        Option::None
    }
}

pub proof fn lemma_map_of_dom(s: Seq<(Seq<u8>, Seq<u8>)>)
    ensures
        forall|k: Seq<u8>| #[trigger] map_of(s).contains_key(k) <==> has_key(s, k),
    decreases s.len(),
{
    if s.len() > 0 {
        let dl = s.drop_last();
        lemma_map_of_dom(dl);
        assert forall|k: Seq<u8>| #[trigger] map_of(s).contains_key(k) <==> has_key(s, k) by {
            assert(map_of(s) == map_of(dl).insert(s.last().0, s.last().1));
            if map_of(s).contains_key(k) {
                if k == s.last().0 {
                    assert(s[s.len() - 1].0 == k);
                    assert(has_key(s, k));
                } else {
                    assert(map_of(dl).contains_key(k));
                    assert(has_key(dl, k));
                    let i = choose|i: int| 0 <= i < dl.len() && dl[i].0 == k;
                    assert(s[i].0 == k);
                    assert(has_key(s, k));
                }
            }
            if has_key(s, k) {
                let i = choose|i: int| 0 <= i < s.len() && s[i].0 == k;
                if i < s.len() - 1 {
                    assert(dl[i].0 == k);
                    assert(has_key(dl, k));
                    assert(map_of(dl).contains_key(k));
                } else {
                    assert(k == s.last().0);
                }
                assert(map_of(s).contains_key(k));
            }
        }
    }
}

pub proof fn lemma_map_of_at(s: Seq<(Seq<u8>, Seq<u8>)>, i: int)
    requires
        0 <= i < s.len(),
        forall|j: int| 0 <= j < s.len() && j != i ==> s[j].0 != s[i].0,
    ensures
        map_of(s).contains_key(s[i].0),
        map_of(s)[s[i].0] == s[i].1,
    decreases s.len(),
{
    if i < s.len() - 1 {
        let dl = s.drop_last();
        lemma_map_of_at(dl, i);
        assert(s.last().0 != s[i].0);
    }
}

/// Strictly ascending keys are unique.
pub proof fn lemma_unique_keys(s: Seq<(Seq<u8>, Seq<u8>)>)
    requires
        sorted_pairs(s),
    ensures
        forall|i: int, j: int| 0 <= i < s.len() && 0 <= j < s.len() && i != j ==> s[i].0 != s[j].0,
{
    assert forall|i: int, j: int|
        0 <= i < s.len() && 0 <= j < s.len() && i != j implies s[i].0 != s[j].0 by {
        if i < j {
            lemma_lex_lt_asymmetric(s[i].0, s[j].0);
        } else {
            lemma_lex_lt_asymmetric(s[j].0, s[i].0);
        }
    }
}

pub proof fn lemma_map_of_insert(s: Seq<(Seq<u8>, Seq<u8>)>, pos: int, k: Seq<u8>, v: Seq<u8>)
    requires
        0 <= pos <= s.len(),
        forall|j: int| 0 <= j < s.len() ==> s[j].0 != k,
    ensures
        map_of(s.insert(pos, (k, v))) == map_of(s).insert(k, v),
    decreases s.len(),
{
    let t = s.insert(pos, (k, v));
    if pos == s.len() {
        assert(t.drop_last() =~= s);
        assert(t.last() == (k, v));
    } else {
        let dl = s.drop_last();
        assert(t.drop_last() =~= dl.insert(pos, (k, v)));
        assert(t.last() == s.last());
        lemma_map_of_insert(dl, pos, k, v);
        assert(s[s.len() - 1].0 != k);
        assert(map_of(dl).insert(k, v).insert(s.last().0, s.last().1) =~= map_of(dl).insert(
            s.last().0,
            s.last().1,
        ).insert(k, v));
    }
}

pub proof fn lemma_map_of_remove(s: Seq<(Seq<u8>, Seq<u8>)>, pos: int)
    requires
        0 <= pos < s.len(),
        forall|i: int, j: int| 0 <= i < s.len() && 0 <= j < s.len() && i != j ==> s[i].0 != s[j].0,
    ensures
        map_of(s.remove(pos)) == map_of(s).remove(s[pos].0),
    decreases s.len(),
{
    let t = s.remove(pos);
    if pos == s.len() - 1 {
        let dl = s.drop_last();
        assert(t =~= dl);
        lemma_map_of_dom(dl);
        if has_key(dl, s[pos].0) {
            let i = choose|i: int| 0 <= i < dl.len() && dl[i].0 == s[pos].0;
            assert(s[i].0 == s[pos].0);
            assert(false);
        }
        assert(map_of(dl).insert(s.last().0, s.last().1).remove(s[pos].0) =~= map_of(dl));
    } else {
        let dl = s.drop_last();
        assert(t.drop_last() =~= dl.remove(pos));
        assert(t.last() == s.last());
        lemma_map_of_remove(dl, pos);
        assert(s.last().0 != s[pos].0);
        assert(map_of(dl).remove(s[pos].0).insert(s.last().0, s.last().1) =~= map_of(dl).insert(
            s.last().0,
            s.last().1,
        ).remove(s[pos].0));
    }
}

proof fn lemma_pairs_remove(s: Seq<(Vec<u8>, Vec<u8>)>, i: int)
    requires
        0 <= i < s.len(),
    ensures
        pairs_of(s.remove(i)) =~= pairs_of(s).remove(i),
{
}

proof fn lemma_pairs_insert(s: Seq<(Vec<u8>, Vec<u8>)>, i: int, e: (Vec<u8>, Vec<u8>))
    requires
        0 <= i <= s.len(),
    ensures
        pairs_of(s.insert(i, e)) =~= pairs_of(s).insert(i, (e.0@, e.1@)),
{
}

/// One namespace: an ordered mapping from byte keys to byte values.
/// The entry vector is exposed for specification; every operation requires
/// and preserves `wf`.
pub struct StoreMap {
    pub entries: Vec<(Vec<u8>, Vec<u8>)>,
}

impl View for StoreMap {
    type V = Map<Seq<u8>, Seq<u8>>;

    open spec fn view(&self) -> Map<Seq<u8>, Seq<u8>> {
        map_of(pairs_of(self.entries@))
    }
}

impl StoreMap {
    /// The entries in ascending key order.
    pub open spec fn entry_pairs(self) -> Seq<(Seq<u8>, Seq<u8>)> {
        pairs_of(self.entries@)
    }

    /// Well-formed: keys strictly ascending.
    pub open spec fn wf(self) -> bool {
        sorted_pairs(self.entry_pairs())
    }

    pub fn new() -> (r: StoreMap)
        ensures
            r.wf(),
            r@ == Map::<Seq<u8>, Seq<u8>>::empty(),
            r.entry_pairs() == Seq::<(Seq<u8>, Seq<u8>)>::empty(),
    {
        let r = StoreMap { entries: Vec::new() };
        proof {
            assert(r.entry_pairs() =~= Seq::<(Seq<u8>, Seq<u8>)>::empty());
        }
        r
    }

    fn find_index(&self, key: &[u8]) -> (r: Option<usize>)
        ensures
            match r {
                Some(i) => i < self.entry_pairs().len() && self.entry_pairs()[i as int].0 == key@,
                None => !has_key(self.entry_pairs(), key@),
            },
    {
        let mut i: usize = 0;
        while i < self.entries.len()
            invariant
                i <= self.entries@.len(),
                forall|j: int| 0 <= j < i ==> self.entry_pairs()[j].0 != key@,
            decreases self.entries@.len() - i,
        {
            if bytes_eq(self.entries[i].0.as_slice(), key) {
                return Some(i);
            }
            i = i + 1;
        }
        None
    }

    /// Look a key up, handing back a copy of its value.
    pub fn get(&self, key: &[u8]) -> (r: Option<Vec<u8>>)
        requires
            self.wf(),
        ensures
            match r {
                Some(v) => self@.contains_key(key@) && v@ == self@[key@],
                None => !self@.contains_key(key@),
            },
    {
        proof {
            lemma_map_of_dom(self.entry_pairs());
            lemma_unique_keys(self.entry_pairs());
        }
        match self.find_index(key) {
            Some(i) => {
                proof {
                    lemma_map_of_at(self.entry_pairs(), i as int);
                }
                Some(slice_to_vec(self.entries[i].1.as_slice()))
            },
            None => None,
        }
    }

    /// The first position whose key is not below `key`.
    fn lower_bound(&self, key: &[u8]) -> (r: usize)
        requires
            self.wf(),
        ensures
            r <= self.entry_pairs().len(),
            forall|j: int| 0 <= j < r ==> lex_lt(self.entry_pairs()[j].0, key@),
            r < self.entry_pairs().len() ==> !lex_lt(self.entry_pairs()[r as int].0, key@),
    {
        let mut i: usize = 0;
        while i < self.entries.len()
            invariant
                i <= self.entries@.len(),
                forall|j: int| 0 <= j < i ==> lex_lt(self.entry_pairs()[j].0, key@),
            decreases self.entries@.len() - i,
        {
            if !key_lt(self.entries[i].0.as_slice(), key) {
                return i;
            }
            i = i + 1;
        }
        i
    }

    /// The first position whose key is above `key`.
    fn upper_bound(&self, key: &[u8]) -> (r: usize)
        requires
            self.wf(),
        ensures
            r <= self.entry_pairs().len(),
            forall|j: int| 0 <= j < r ==> !lex_lt(key@, self.entry_pairs()[j].0),
            r < self.entry_pairs().len() ==> lex_lt(key@, self.entry_pairs()[r as int].0),
    {
        let mut i: usize = 0;
        while i < self.entries.len()
            invariant
                i <= self.entries@.len(),
                forall|j: int| 0 <= j < i ==> !lex_lt(key@, self.entry_pairs()[j].0),
            decreases self.entries@.len() - i,
        {
            if key_lt(key, self.entries[i].0.as_slice()) {
                return i;
            }
            i = i + 1;
        }
        i
    }

    /// Upsert: afterwards the namespace maps `key` to `value`, and nothing
    /// else has changed.
    pub fn insert(&mut self, key: Vec<u8>, value: Vec<u8>)
        requires
            old(self).wf(),
        ensures
            final(self).wf(),
            final(self)@ == old(self)@.insert(key@, value@),
            final(self).entry_pairs().len() == old(self).entry_pairs().len() + (if old(
                self,
            )@.contains_key(key@) {
                0int
            } else {
                1int
            }),
    {
        proof {
            lemma_unique_keys(self.entry_pairs());
            lemma_map_of_dom(self.entry_pairs());
        }
        let ghost s0 = self.entry_pairs();
        let ghost e0 = self.entries@;
        let ghost m0 = self@;
        let ghost kv = (key@, value@);
        let pos = self.lower_bound(key.as_slice());
        let found = pos < self.entries.len() && bytes_eq(
            self.entries[pos].0.as_slice(),
            key.as_slice(),
        );
        if found {
            self.entries.remove(pos);
            proof {
                lemma_pairs_remove(e0, pos as int);
            }
            let ghost e1 = self.entries@;
            let ghost s1 = self.entry_pairs();
            self.entries.insert(pos, (key, value));
            proof {
                assert(s1 =~= s0.remove(pos as int));
                lemma_pairs_insert(e1, pos as int, self.entries@[pos as int]);
                assert(self.entry_pairs() =~= s1.insert(pos as int, kv));
                assert(s0[pos as int].0 == kv.0);
                lemma_map_of_remove(s0, pos as int);
                assert forall|j: int| 0 <= j < s1.len() implies s1[j].0 != kv.0 by {
                    if j < pos {
                        assert(s1[j] == s0[j]);
                    } else {
                        assert(s1[j] == s0[j + 1]);
                    }
                }
                lemma_map_of_insert(s1, pos as int, kv.0, kv.1);
                assert(m0.remove(kv.0).insert(kv.0, kv.1) =~= m0.insert(kv.0, kv.1));
                let p = self.entry_pairs();
                assert forall|x: int| 0 <= x < p.len() implies p[x].0 == s0[x].0 by {
                    if x < pos {
                        assert(p[x] == s1[x]);
                        assert(s1[x] == s0[x]);
                    } else if x == pos {
                    } else {
                        assert(p[x] == s1[x - 1]);
                        assert(s1[x - 1] == s0[x]);
                    }
                }
                assert(self.wf());
            }
        } else {
            self.entries.insert(pos, (key, value));
            proof {
                lemma_pairs_insert(e0, pos as int, self.entries@[pos as int]);
                assert(self.entry_pairs() =~= s0.insert(pos as int, kv));
                assert forall|j: int| 0 <= j < s0.len() implies s0[j].0 != kv.0 by {
                    if j < pos {
                        lemma_lex_lt_asymmetric(s0[j].0, kv.0);
                    } else {
                        lemma_lex_lt_connected(s0[pos as int].0, kv.0);
                        if j > pos {
                            lemma_lex_lt_transitive(kv.0, s0[pos as int].0, s0[j].0);
                        }
                        lemma_lex_lt_asymmetric(kv.0, s0[j].0);
                    }
                }
                lemma_map_of_insert(s0, pos as int, kv.0, kv.1);
                let p = self.entry_pairs();
                if pos < s0.len() {
                    lemma_lex_lt_connected(s0[pos as int].0, kv.0);
                    assert(lex_lt(kv.0, s0[pos as int].0));
                }
                assert forall|a: int, b: int| 0 <= a < b < p.len() implies lex_lt(
                    p[a].0,
                    p[b].0,
                ) by {
                    if a < pos && b < pos {
                        assert(p[a] == s0[a] && p[b] == s0[b]);
                    } else if a < pos && b == pos {
                        assert(p[a] == s0[a]);
                    } else if a < pos && b > pos {
                        assert(p[a] == s0[a] && p[b] == s0[b - 1]);
                    } else if a == pos {
                        assert(p[b] == s0[b - 1]);
                        if b - 1 > pos {
                            lemma_lex_lt_transitive(kv.0, s0[pos as int].0, s0[b - 1].0);
                        }
                    } else {
                        assert(p[a] == s0[a - 1] && p[b] == s0[b - 1]);
                    }
                }
                assert(self.wf());
            }
        }
    }

    /// Delete: afterwards the key is absent; deleting an absent key changes
    /// nothing.
    pub fn remove(&mut self, key: &[u8])
        requires
            old(self).wf(),
        ensures
            final(self).wf(),
            final(self)@ == old(self)@.remove(key@),
            final(self).entry_pairs().len() == old(self).entry_pairs().len() - (if old(
                self,
            )@.contains_key(key@) {
                1int
            } else {
                0int
            }),
    {
        proof {
            lemma_unique_keys(self.entry_pairs());
            lemma_map_of_dom(self.entry_pairs());
        }
        let ghost s0 = self.entry_pairs();
        let ghost e0 = self.entries@;
        let ghost m0 = self@;
        match self.find_index(key) {
            Some(i) => {
                self.entries.remove(i);
                proof {
                    lemma_pairs_remove(e0, i as int);
                    assert(self.entry_pairs() =~= s0.remove(i as int));
                    lemma_map_of_remove(s0, i as int);
                    assert(s0[i as int].0 == key@);
                    let p = self.entry_pairs();
                    assert forall|a: int, b: int| 0 <= a < b < p.len() implies lex_lt(
                        p[a].0,
                        p[b].0,
                    ) by {
                        if b < i {
                            assert(p[a] == s0[a] && p[b] == s0[b]);
                        } else if a < i {
                            assert(p[a] == s0[a] && p[b] == s0[b + 1]);
                        } else {
                            assert(p[a] == s0[a + 1] && p[b] == s0[b + 1]);
                        }
                    }
                    assert(self.wf());
                }
            },
            None => {
                proof {
                    assert(!m0.contains_key(key@));
                    assert(m0.remove(key@) =~= m0);
                }
            },
        }
    }

    /// Read the stored count at `key`, write back its big-endian successor,
    /// and hand the new value out. The one failure is a count already at the
    /// largest value eight bytes can hold.
    pub fn increment(&mut self, key: &[u8]) -> (r: Result<Vec<u8>, Error>)
        requires
            old(self).wf(),
        ensures
            final(self).wf(),
            match r {
                Ok(v) => {
                    &&& stored_count(lookup(old(self)@, key@)) < u64::MAX
                    &&& v@ == next_counter_value(lookup(old(self)@, key@))
                    &&& final(self)@ == old(self)@.insert(key@, v@)
                },
                Err(e) => {
                    &&& e == Error::TransactionError
                    &&& stored_count(lookup(old(self)@, key@)) == u64::MAX
                    &&& final(self)@ == old(self)@
                },
            },
    {
        let current = self.get(key);
        let cur_ref = current.as_ref();
        proof {
            assert(crate::counter::opt_bytes_view(cur_ref) == lookup(old(self)@, key@));
        }
        let next = increment_bytes(cur_ref);
        match next {
            Some(v) => {
                let stored = slice_to_vec(v.as_slice());
                self.insert(slice_to_vec(key), stored);
                Ok(v)
            },
            None => {
                proof {
                    let lk = lookup(old(self)@, key@);
                    crate::counter::lemma_pow256_8();
                    match lk {
                        Option::Some(sv) => {
                            if sv.len() == 8 {
                                crate::counter::lemma_be_val_bound(sv);
                            }
                        },
                        Option::None => {},
                    }
                }
                Err(Error::TransactionError)
            },
        }
    }

    /// Extract the part of the namespace a scan walks: ascending from the
    /// first key at or above `from`, or descending from the last key at or
    /// below `from`.
    pub fn range_from(&self, from: &[u8], backwards: bool) -> (r: Vec<(Vec<u8>, Vec<u8>)>)
        requires
            self.wf(),
        ensures
            r@.len() <= self.entry_pairs().len(),
            !backwards ==> forall|i: int|
                0 <= i < r@.len() ==> pairs_of(r@)[i] == self.entry_pairs()[self.entry_pairs().len()
                    - r@.len() + i],
            !backwards ==> forall|j: int|
                0 <= j < self.entry_pairs().len() - r@.len() ==> lex_lt(
                    self.entry_pairs()[j].0,
                    from@,
                ),
            !backwards ==> forall|i: int|
                0 <= i < r@.len() ==> lex_le(from@, pairs_of(r@)[i].0),
            (!backwards && from@.len() == 0) ==> r@.len() == self.entry_pairs().len(),
            backwards ==> forall|i: int|
                0 <= i < r@.len() ==> pairs_of(r@)[i] == self.entry_pairs()[r@.len() - 1 - i],
            backwards ==> forall|j: int|
                r@.len() <= j < self.entry_pairs().len() ==> lex_lt(
                    from@,
                    self.entry_pairs()[j].0,
                ),
            backwards ==> forall|i: int|
                0 <= i < r@.len() ==> lex_le(pairs_of(r@)[i].0, from@),
    {
        let mut r: Vec<(Vec<u8>, Vec<u8>)> = Vec::new();
        if !backwards {
            let pos = self.lower_bound(from);
            proof {
                if from@.len() == 0 && pos > 0 {
                    assert(lex_lt(self.entry_pairs()[0].0, from@));
                    assert(false);
                }
            }
            let mut i: usize = pos;
            while i < self.entries.len()
                invariant
                    self.wf(),
                    pos <= i <= self.entries@.len(),
                    r@.len() == i - pos,
                    forall|j: int|
                        0 <= j < r@.len() ==> pairs_of(r@)[j] == self.entry_pairs()[pos + j],
                    forall|j: int| 0 <= j < pos ==> lex_lt(self.entry_pairs()[j].0, from@),
                    pos < self.entries@.len() ==> !lex_lt(
                        self.entry_pairs()[pos as int].0,
                        from@,
                    ),
                decreases self.entries@.len() - i,
            {
                let k = slice_to_vec(self.entries[i].0.as_slice());
                let v = slice_to_vec(self.entries[i].1.as_slice());
                let ghost ep = (k@, v@);
                let ghost rold = r@;
                r.push((k, v));
                proof {
                    assert forall|j: int|
                        0 <= j < r@.len() implies pairs_of(r@)[j] == self.entry_pairs()[pos
                        + j] by {
                        assert(pairs_of(r@)[j] == (r@[j].0@, r@[j].1@));
                        if j < rold.len() {
                            assert(r@[j] == rold[j]);
                            assert(pairs_of(rold)[j] == (rold[j].0@, rold[j].1@));
                        } else {
                            assert(j == rold.len());
                            assert(r@[j].0@ == ep.0 && r@[j].1@ == ep.1);
                            assert(self.entry_pairs()[i as int] == (
                                self.entries@[i as int].0@,
                                self.entries@[i as int].1@,
                            ));
                        }
                    }
                }
                i = i + 1;
            }
            proof {
                assert forall|i2: int|
                    0 <= i2 < r@.len() implies lex_le(from@, pairs_of(r@)[i2].0) by {
                    let s = self.entry_pairs();
                    lemma_lex_lt_connected(s[pos as int].0, from@);
                    assert(lex_le(from@, s[pos as int].0));
                    if i2 > 0 {
                        assert(lex_lt(s[pos as int].0, s[pos + i2].0));
                        if lex_lt(from@, s[pos as int].0) {
                            lemma_lex_lt_transitive(from@, s[pos as int].0, s[pos + i2].0);
                        }
                    }
                }
            }
        } else {
            let pos = self.upper_bound(from);
            let mut i: usize = pos;
            while i > 0
                invariant
                    self.wf(),
                    i <= pos <= self.entries@.len(),
                    r@.len() == pos - i,
                    forall|j: int|
                        0 <= j < r@.len() ==> pairs_of(r@)[j] == self.entry_pairs()[pos - 1 - j],
                    forall|j: int| 0 <= j < pos ==> !lex_lt(from@, self.entry_pairs()[j].0),
                    pos < self.entries@.len() ==> lex_lt(from@, self.entry_pairs()[pos as int].0),
                decreases i,
            {
                i = i - 1;
                let k = slice_to_vec(self.entries[i].0.as_slice());
                let v = slice_to_vec(self.entries[i].1.as_slice());
                let ghost ep = (k@, v@);
                let ghost rold = r@;
                r.push((k, v));
                proof {
                    assert forall|j: int|
                        0 <= j < r@.len() implies pairs_of(r@)[j] == self.entry_pairs()[pos - 1
                        - j] by {
                        assert(pairs_of(r@)[j] == (r@[j].0@, r@[j].1@));
                        if j < rold.len() {
                            assert(r@[j] == rold[j]);
                            assert(pairs_of(rold)[j] == (rold[j].0@, rold[j].1@));
                        } else {
                            assert(j == rold.len());
                            assert(r@[j].0@ == ep.0 && r@[j].1@ == ep.1);
                            assert(self.entry_pairs()[i as int] == (
                                self.entries@[i as int].0@,
                                self.entries@[i as int].1@,
                            ));
                        }
                    }
                }
            }
            proof {
                let s = self.entry_pairs();
                assert forall|j: int| r@.len() <= j < s.len() implies lex_lt(from@, s[j].0) by {
                    if j > pos {
                        lemma_lex_lt_transitive(from@, s[pos as int].0, s[j].0);
                    }
                }
                assert forall|i2: int|
                    0 <= i2 < r@.len() implies lex_le(pairs_of(r@)[i2].0, from@) by {
                    let idx = pos - 1 - i2;
                    assert(!lex_lt(from@, s[idx].0));
                    lemma_lex_lt_connected(s[idx].0, from@);
                }
            }
        }
        r
    }
}

} // verus!
