//! Fixed-width big-endian counters. An increment reads the stored value
//! (absence, or a value of the wrong width, counts as zero), writes back the
//! successor as eight big-endian bytes, and hands the caller the new value.

use vstd::arithmetic::div_mod::lemma_fundamental_div_mod;
use vstd::prelude::*;

verus! {

/// 256 to the power `w`: the number of byte strings of length `w`.
pub open spec fn pow256(w: nat) -> nat
    decreases w,
{
    if w == 0 {
        1
    } else {
        256 * pow256((w - 1) as nat)
    }
}

/// The big-endian digits of `n`, `w` bytes wide, least significant last.
pub open spec fn be_bytes(n: nat, w: nat) -> Seq<u8>
    decreases w,
{
    if w == 0 {
        Seq::empty()
    } else {
        be_bytes(n / 256, (w - 1) as nat).push((n % 256) as u8)
    }
}

/// The number a big-endian byte string stands for.
pub open spec fn be_val(s: Seq<u8>) -> nat
    decreases s.len(),
{
    if s.len() == 0 {
        0
    } else {
        be_val(s.drop_last()) * 256 + (s.last() as nat)
    }
}

pub proof fn lemma_pow256_pos(w: nat)
    ensures
        pow256(w) >= 1,
    decreases w,
{
    if w > 0 {
        lemma_pow256_pos((w - 1) as nat);
    }
}

pub proof fn lemma_pow256_mono(a: nat, b: nat)
    requires
        a <= b,
    ensures
        pow256(a) <= pow256(b),
    decreases b,
{
    if a < b {
        lemma_pow256_mono(a, (b - 1) as nat);
        lemma_pow256_pos((b - 1) as nat);
    }
}

pub proof fn lemma_pow256_8()
    ensures
        pow256(8) == 0x1_0000_0000_0000_0000,
{
    reveal_with_fuel(pow256, 9);
}

pub proof fn lemma_be_bytes_len(n: nat, w: nat)
    ensures
        be_bytes(n, w).len() == w,
    decreases w,
{
    if w > 0 {
        lemma_be_bytes_len(n / 256, (w - 1) as nat);
    }
}

pub proof fn lemma_be_val_bound(s: Seq<u8>)
    ensures
        be_val(s) < pow256(s.len()),
    decreases s.len(),
{
    if s.len() > 0 {
        lemma_be_val_bound(s.drop_last());
        assert(s.drop_last().len() == s.len() - 1);
        assert(be_val(s.drop_last()) * 256 <= (pow256((s.len() - 1) as nat) - 1) * 256);
        assert(s.last() < 256);
    }
}

/// Encoding then decoding gives the number back: the encoding loses nothing
/// as long as the number fits the width.
pub proof fn lemma_be_round_trip(n: nat, w: nat)
    requires
        n < pow256(w),
    ensures
        be_val(be_bytes(n, w)) == n,
    decreases w,
{
    if w == 0 {
        assert(n == 0);
    } else {
        let s = be_bytes(n, w);
        lemma_be_bytes_len(n / 256, (w - 1) as nat);
        assert(s.drop_last() =~= be_bytes(n / 256, (w - 1) as nat));
        assert(n / 256 < pow256((w - 1) as nat)) by (nonlinear_arith)
            requires
                n < 256 * pow256((w - 1) as nat),
        ;
        lemma_be_round_trip(n / 256, (w - 1) as nat);
        lemma_fundamental_div_mod(n as int, 256);
    }
}

/// Distinct numbers that fit the width have distinct encodings.
pub proof fn lemma_be_bytes_injective(a: nat, b: nat, w: nat)
    requires
        a < pow256(w),
        b < pow256(w),
        be_bytes(a, w) == be_bytes(b, w),
    ensures
        a == b,
{
    lemma_be_round_trip(a, w);
    lemma_be_round_trip(b, w);
}

fn encode_rec(n: u64, w: usize) -> (r: Vec<u8>)
    ensures
        r@ == be_bytes(n as nat, w as nat),
    decreases w,
{
    if w == 0 {
        let r: Vec<u8> = Vec::new();
        proof {
            assert(r@ =~= be_bytes(n as nat, 0));
        }
        r
    } else {
        let mut r = encode_rec(n / 256, w - 1);
        r.push((n % 256) as u8);
        r
    }
}

/// Encode `n` as eight big-endian bytes.
pub fn encode_be_u64(n: u64) -> (r: Vec<u8>)
    ensures
        r@ == be_bytes(n as nat, 8),
        r@.len() == 8,
{
    proof {
        lemma_be_bytes_len(n as nat, 8);
    }
    encode_rec(n, 8)
}

/// Decode eight big-endian bytes.
pub fn decode_be_u64(s: &[u8]) -> (r: u64)
    requires
        s@.len() == 8,
    ensures
        r as nat == be_val(s@),
{
    let mut acc: u64 = 0;
    let mut i: usize = 0;
    proof {
        lemma_pow256_8();
    }
    while i < 8
        invariant
            s@.len() == 8,
            i <= 8,
            acc as nat == be_val(s@.take(i as int)),
            pow256(8) == 0x1_0000_0000_0000_0000,
        decreases 8 - i,
    {
        proof {
            lemma_be_val_bound(s@.take(i as int));
            lemma_pow256_mono((i + 1) as nat, 8);
            assert(s@.take(i as int + 1).drop_last() =~= s@.take(i as int));
            assert(s@.take(i as int + 1).last() == s@[i as int]);
        }
        acc = acc * 256 + (s[i] as u64);
        i = i + 1;
    }
    proof {
        assert(s@.take(8) =~= s@);
    }
    acc
}

/// The count a stored value stands for: eight big-endian bytes give their
/// number, anything else (including absence) counts as zero.
pub open spec fn stored_count(v: Option<Seq<u8>>) -> nat {
    match v {
        Option::Some(s) => if s.len() == 8 {
            be_val(s)
        } else {
            0
        },
        Option::None => 0,
    }
}

/// The value an increment writes back and returns: the successor of the
/// stored count, eight big-endian bytes wide.
pub open spec fn next_counter_value(v: Option<Seq<u8>>) -> Seq<u8> {
    be_bytes(stored_count(v) + 1, 8)
}

/// The view of an optional borrowed value.
pub open spec fn opt_bytes_view(v: Option<&Vec<u8>>) -> Option<Seq<u8>> {
    match v {
        Option::Some(b) => Option::Some(b@),
        Option::None => Option::None,
    }
}

/// Compute the successor value, or nothing when the stored count is already
/// the largest that eight bytes can hold.
pub fn increment_bytes(old_value: Option<&Vec<u8>>) -> (r: Option<Vec<u8>>)
    ensures
        stored_count(opt_bytes_view(old_value)) < u64::MAX ==> (r matches Some(v) && v@
            == next_counter_value(opt_bytes_view(old_value))),
        stored_count(opt_bytes_view(old_value)) >= u64::MAX ==> r is None,
{
    proof {
        lemma_pow256_8();
    }
    let n: u64 = match old_value {
        Some(b) => {
            if b.len() == 8 {
                proof {
                    lemma_be_val_bound(b@);
                }
                decode_be_u64(b.as_slice())
            } else {
                0
            }
        },
        None => 0,
    };
    if n == u64::MAX {
        return None;
    }
    Some(encode_be_u64(n + 1))
}

/// Law: an increment of an absent key yields the encoded value of one.
pub proof fn lemma_counter_starts_at_one()
    ensures
        next_counter_value(Option::None) == be_bytes(1, 8),
        be_val(next_counter_value(Option::None)) == 1,
{
    lemma_pow256_8();
    lemma_be_round_trip(1, 8);
}

/// Law: one increment raises the stored count by exactly one, so a run of
/// increments on one key yields strictly increasing counts.
pub proof fn lemma_counter_step(v: Option<Seq<u8>>)
    requires
        stored_count(v) < u64::MAX,
    ensures
        be_val(next_counter_value(v)) == stored_count(v) + 1,
        be_val(next_counter_value(v)) > stored_count(v),
        next_counter_value(v).len() == 8,
{
    lemma_pow256_8();
    lemma_be_round_trip(stored_count(v) + 1, 8);
    lemma_be_bytes_len(stored_count(v) + 1, 8);
}

/// Law: consecutive increments never hand out the same value twice; the
/// second result always differs from the first.
pub proof fn lemma_counter_run_distinct(v: Option<Seq<u8>>)
    requires
        stored_count(v) + 1 < u64::MAX,
    ensures
        next_counter_value(Option::Some(next_counter_value(v))) != next_counter_value(v),
        be_val(next_counter_value(Option::Some(next_counter_value(v)))) > be_val(
            next_counter_value(v),
        ),
{
    lemma_counter_step(v);
    lemma_counter_step(Option::Some(next_counter_value(v)));
}

} // verus!
