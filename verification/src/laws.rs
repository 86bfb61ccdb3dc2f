//! Cross-operation laws of the library, stated over the same spec
//! functions the operations' contracts use.

use crate::order::{
    is_prefix, lemma_lex_lt_asymmetric, lemma_lex_lt_transitive, lemma_prefix_le,
    lemma_prefix_window, lex_le, lex_lt,
};
use crate::store::sorted_pairs;
use vstd::prelude::*;

verus! {

/// Law: a lookup right after an upsert of `k` to `v` yields `v`.
pub proof fn lemma_insert_then_get(m: Map<Seq<u8>, Seq<u8>>, k: Seq<u8>, v: Seq<u8>)
    ensures
        m.insert(k, v).contains_key(k),
        m.insert(k, v)[k] == v,
{
}

/// Law: a lookup right after a removal of `k` yields nothing, whether or
/// not `k` was present.
pub proof fn lemma_remove_then_get(m: Map<Seq<u8>, Seq<u8>>, k: Seq<u8>)
    ensures
        !m.remove(k).contains_key(k),
{
}

/// Law: the empty key is the least, so a scan from the empty key covers
/// the whole namespace.
pub proof fn lemma_empty_key_least(k: Seq<u8>)
    ensures
        k.len() > 0 ==> lex_lt(Seq::<u8>::empty(), k),
{
}

/// Law: a key ordered below a prefix cannot carry it, so an ascending
/// scan that starts at the prefix point misses no match.
pub proof fn lemma_no_match_below_prefix(p: Seq<u8>, k: Seq<u8>)
    requires
        lex_lt(k, p),
    ensures
        !is_prefix(p, k),
{
    if is_prefix(p, k) {
        lemma_prefix_le(p, k);
        lemma_lex_lt_asymmetric(k, p);
    }
}

/// Law: in ascending order, once a key at or above the prefix fails to
/// carry it, no later key carries it either, so a forward prefix scan may
/// end at the first key that no longer matches.
pub proof fn lemma_prefix_scan_stops(s: Seq<(Seq<u8>, Seq<u8>)>, p: Seq<u8>, b: int, c: int)
    requires
        sorted_pairs(s),
        0 <= b <= c < s.len(),
        lex_le(p, s[b].0),
        !is_prefix(p, s[b].0),
    ensures
        !is_prefix(p, s[c].0),
{
    if b < c && is_prefix(p, s[c].0) {
        lemma_prefix_window(p, s[b].0, s[c].0);
    }
}

/// Law: in ascending key order the keys that carry a prefix stand in one
/// contiguous run, so a forward scan may stop at the first key that no
/// longer carries the prefix without passing over a later match.
pub proof fn lemma_prefix_run_contiguous(
    s: Seq<(Seq<u8>, Seq<u8>)>,
    p: Seq<u8>,
    i: int,
    j: int,
    k: int,
)
    requires
        sorted_pairs(s),
        0 <= i <= j <= k < s.len(),
        is_prefix(p, s[i].0),
        is_prefix(p, s[k].0),
    ensures
        is_prefix(p, s[j].0),
{
    if i < j && j < k {
        lemma_prefix_le(p, s[i].0);
        if lex_lt(p, s[i].0) {
            lemma_lex_lt_transitive(p, s[i].0, s[j].0);
        }
        lemma_prefix_window(p, s[j].0, s[k].0);
    }
}

} // verus!
