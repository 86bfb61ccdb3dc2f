//! Lexicographic order over byte sequences, the order in which every
//! namespace keeps its keys, together with the byte-prefix relation used
//! by prefix scans and watchers.

use vstd::prelude::*;

verus! {

/// Strict lexicographic order: `a` comes before `b`.
pub open spec fn lex_lt(a: Seq<u8>, b: Seq<u8>) -> bool
    decreases a.len(),
{
    if b.len() == 0 {
        false
    } else if a.len() == 0 {
        true
    } else if a[0] < b[0] {
        true
    } else if a[0] > b[0] {
        false
    } else {
        lex_lt(a.skip(1), b.skip(1))
    }
}

/// Non-strict lexicographic order.
pub open spec fn lex_le(a: Seq<u8>, b: Seq<u8>) -> bool {
    lex_lt(a, b) || a == b
}

/// `p` is a byte-prefix of `k`.
pub open spec fn is_prefix(p: Seq<u8>, k: Seq<u8>) -> bool {
    p.len() <= k.len() && k.take(p.len() as int) == p
}

pub proof fn lemma_lex_lt_irreflexive(a: Seq<u8>)
    ensures
        !lex_lt(a, a),
    decreases a.len(),
{
    if a.len() > 0 {
        lemma_lex_lt_irreflexive(a.skip(1));
    }
}

/// Two keys are either ordered one way, the other way, or equal.
pub proof fn lemma_lex_lt_connected(a: Seq<u8>, b: Seq<u8>)
    ensures
        lex_lt(a, b) || lex_lt(b, a) || a == b,
    decreases a.len(),
{
    if a.len() == 0 && b.len() == 0 {
        assert(a =~= b);
    } else if a.len() > 0 && b.len() > 0 && a[0] == b[0] {
        lemma_lex_lt_connected(a.skip(1), b.skip(1));
        if !lex_lt(a, b) && !lex_lt(b, a) {
            assert(a.skip(1) =~= b.skip(1));
            assert forall|i: int| 0 <= i < a.len() implies a[i] == b[i] by {
                if i >= 1 {
                    assert(a[i] == a.skip(1)[i - 1]);
                    assert(b[i] == b.skip(1)[i - 1]);
                }
            }
            assert(a =~= b);
        }
    }
}

pub proof fn lemma_lex_lt_transitive(a: Seq<u8>, b: Seq<u8>, c: Seq<u8>)
    requires
        lex_lt(a, b),
        lex_lt(b, c),
    ensures
        lex_lt(a, c),
    decreases a.len() + b.len() + c.len(),
{
    if a.len() > 0 && b.len() > 0 && c.len() > 0 {
        if a[0] == b[0] && b[0] == c[0] {
            lemma_lex_lt_transitive(a.skip(1), b.skip(1), c.skip(1));
        }
    }
}

/// Strictness: a key ordered before another is not ordered after it, nor equal.
pub proof fn lemma_lex_lt_asymmetric(a: Seq<u8>, b: Seq<u8>)
    requires
        lex_lt(a, b),
    ensures
        !lex_lt(b, a),
        a != b,
    decreases a.len(),
{
    lemma_lex_lt_irreflexive(a);
    if lex_lt(b, a) {
        lemma_lex_lt_transitive(a, b, a);
    }
}

/// A shared prefix of length `i` can be cut off without changing the order.
pub proof fn lemma_lex_lt_common_prefix(a: Seq<u8>, b: Seq<u8>, i: int)
    requires
        0 <= i <= a.len(),
        i <= b.len(),
        a.take(i) =~= b.take(i),
    ensures
        lex_lt(a, b) == lex_lt(a.skip(i), b.skip(i)),
    decreases i,
{
    if i == 0 {
        assert(a.skip(0) =~= a);
        assert(b.skip(0) =~= b);
    } else {
        assert(a[0] == a.take(i)[0]);
        assert(b[0] == b.take(i)[0]);
        assert(a.len() > 0 && b.len() > 0 && a[0] == b[0]);
        assert(a.skip(1).take(i - 1) =~= b.skip(1).take(i - 1)) by {
            assert(forall|j: int|
                0 <= j < i - 1 ==> #[trigger] a.skip(1)[j] == a.take(i)[j + 1] && b.skip(1)[j]
                    == b.take(i)[j + 1]);
        }
        lemma_lex_lt_common_prefix(a.skip(1), b.skip(1), i - 1);
        assert(a.skip(1).skip(i - 1) =~= a.skip(i));
        assert(b.skip(1).skip(i - 1) =~= b.skip(i));
    }
}

/// A key that carries a prefix is not below that prefix.
pub proof fn lemma_prefix_le(p: Seq<u8>, k: Seq<u8>)
    requires
        is_prefix(p, k),
    ensures
        lex_le(p, k),
    decreases p.len(),
{
    if p.len() == 0 {
        if k.len() == 0 {
            assert(p =~= k);
        }
    } else {
        assert(k[0] == k.take(p.len() as int)[0]);
        assert(p[0] == k[0]);
        assert(is_prefix(p.skip(1), k.skip(1))) by {
            assert(k.skip(1).take(p.len() - 1) =~= p.skip(1)) by {
                assert(forall|j: int|
                    0 <= j < p.len() - 1 ==> #[trigger] k.skip(1)[j] == k.take(p.len() as int)[j
                        + 1]);
            }
        }
        lemma_prefix_le(p.skip(1), k.skip(1));
        if p.skip(1) == k.skip(1) && p.len() == k.len() {
            assert(p =~= k) by {
                assert(forall|i: int|
                    1 <= i < p.len() ==> p[i] == #[trigger] p.skip(1)[i - 1] && k[i] == k.skip(1)[i
                        - 1]);
            }
        }
    }
}

/// Keys carrying a given prefix form one contiguous run of the lexicographic
/// order: anything strictly between two such keys carries the prefix too.
pub proof fn lemma_prefix_window(p: Seq<u8>, b: Seq<u8>, c: Seq<u8>)
    requires
        is_prefix(p, c),
        lex_le(p, b),
        lex_lt(b, c),
    ensures
        is_prefix(p, b),
    decreases p.len(),
{
    if p.len() == 0 {
        assert(b.take(0) =~= p);
    } else {
        assert(c[0] == c.take(p.len() as int)[0]);
        assert(p[0] == c[0]);
        if b.len() == 0 {
            assert(lex_lt(b, p));
            lemma_lex_lt_asymmetric(b, p);
            assert(false);
        }
        // heads: p[0] <= b[0] (from p <= b) and b[0] <= c[0] (from b < c), c[0] == p[0]
        if p[0] < b[0] {
            assert(b[0] > c[0]);
            assert(!lex_lt(b, c));
            assert(false);
        }
        if b[0] < p[0] {
            assert(lex_lt(b, p));
            if lex_lt(p, b) {
                lemma_lex_lt_asymmetric(b, p);
            }
            assert(p != b);
            assert(false);
        }
        assert(b[0] == p[0] && b[0] == c[0]);
        assert(is_prefix(p.skip(1), c.skip(1))) by {
            assert(c.skip(1).take(p.len() - 1) =~= p.skip(1)) by {
                assert(forall|j: int|
                    0 <= j < p.len() - 1 ==> #[trigger] c.skip(1)[j] == c.take(p.len() as int)[j
                        + 1]);
            }
        }
        assert(lex_le(p.skip(1), b.skip(1))) by {
            if p == b {
                assert(p.skip(1) =~= b.skip(1));
            }
        }
        lemma_prefix_window(p.skip(1), b.skip(1), c.skip(1));
        assert(b.take(p.len() as int) =~= p) by {
            assert(b.skip(1).take(p.len() - 1) =~= p.skip(1));
            assert(forall|j: int|
                1 <= j < p.len() ==> #[trigger] b.take(p.len() as int)[j] == b.skip(1).take(
                    p.len() - 1,
                )[j - 1]);
            assert(forall|j: int|
                1 <= j < p.len() ==> #[trigger] p[j] == p.skip(1)[j - 1]);
        }
    }
}

/// Executable comparison: is `a` lexicographically before `b`?
pub fn key_lt(a: &[u8], b: &[u8]) -> (r: bool)
    ensures
        r == lex_lt(a@, b@),
{
    let mut i: usize = 0;
    loop
        invariant
            i <= a@.len(),
            i <= b@.len(),
            forall|j: int| 0 <= j < i ==> a@[j] == b@[j],
        decreases a@.len() - i,
    {
        proof {
            assert(a@.take(i as int) =~= b@.take(i as int));
            lemma_lex_lt_common_prefix(a@, b@, i as int);
        }
        if i >= a.len() || i >= b.len() {
            proof {
                if a@.len() == i {
                    assert(a@.skip(i as int).len() == 0);
                } else {
                    assert(b@.skip(i as int).len() == 0);
                }
            }
            return a.len() < b.len();
        }
        let x = a[i];
        let y = b[i];
        if x != y {
            proof {
                assert(a@.skip(i as int)[0] == a@[i as int]);
                assert(b@.skip(i as int)[0] == b@[i as int]);
            }
            return x < y;
        }
        i = i + 1;
    }
}

/// Executable equality of byte strings.
pub fn bytes_eq(a: &[u8], b: &[u8]) -> (r: bool)
    ensures
        r == (a@ == b@),
{
    if a.len() != b.len() {
        return false;
    }
    let mut i: usize = 0;
    while i < a.len()
        invariant
            a@.len() == b@.len(),
            i <= a@.len(),
            forall|j: int| 0 <= j < i ==> a@[j] == b@[j],
        decreases a@.len() - i,
    {
        if a[i] != b[i] {
            return false;
        }
        i = i + 1;
    }
    proof {
        assert(a@ =~= b@);
    }
    true
}

/// Executable check that `k` starts with the byte-prefix `p`.
pub fn starts_with_bytes(k: &[u8], p: &[u8]) -> (r: bool)
    ensures
        r == is_prefix(p@, k@),
{
    if p.len() > k.len() {
        return false;
    }
    let mut i: usize = 0;
    while i < p.len()
        invariant
            p@.len() <= k@.len(),
            i <= p@.len(),
            forall|j: int| 0 <= j < i ==> k@[j] == p@[j],
        decreases p@.len() - i,
    {
        if k[i] != p[i] {
            proof {
                assert(k@.take(p@.len() as int)[i as int] == k@[i as int]);
            }
            return false;
        }
        i = i + 1;
    }
    proof {
        assert(k@.take(p@.len() as int) =~= p@);
    }
    true
}

} // verus!
