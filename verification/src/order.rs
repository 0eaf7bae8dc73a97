//! A total order on 64-bit float bit patterns.
//!
//! The library stores every sample value as the raw bit pattern of an IEEE-754
//! double. Comparing two patterns through `key` yields the IEEE-754 total
//! order of the encoded values: the sign bit is folded so that negative
//! values, whose payload bits grow as the value shrinks, come out below the
//! positive ones.

use vstd::prelude::*;

verus! {

/// Order key of a float bit pattern. Keys of negative patterns (sign bit set)
/// fall below `0x8000_0000_0000_0000`, keys of positive patterns at or above
/// it, and within each half the key grows exactly when the encoded value does.
pub open spec fn key(b: u64) -> u64 {
    if b < 0x8000_0000_0000_0000 {
        (b + 0x8000_0000_0000_0000) as u64
    } else {
        (0xFFFF_FFFF_FFFF_FFFFu64 - b) as u64
    }
}

/// The value encoded by `a` comes at or below the one encoded by `b`.
pub open spec fn le_val(a: u64, b: u64) -> bool {
    key(a) <= key(b)
}

/// The value encoded by `a` comes strictly below the one encoded by `b`.
pub open spec fn lt_val(a: u64, b: u64) -> bool {
    key(a) < key(b)
}

/// Two distinct bit patterns never share a key, so `le_val` is antisymmetric.
pub proof fn lemma_key_injective(a: u64, b: u64)
    ensures
        key(a) == key(b) ==> a == b,
{
}

/// The comparison on values, as a function value for `sort_by`.
pub open spec fn val_leq() -> spec_fn(u64, u64) -> bool {
    |a: u64, b: u64| le_val(a, b)
}

/// A sequence of bit patterns stands in ascending order of encoded values.
pub open spec fn sorted_vals(s: Seq<u64>) -> bool {
    vstd::relations::sorted_by(s, val_leq())
}

/// `val_leq` is a total order: reflexive, transitive, antisymmetric, total.
pub proof fn lemma_val_leq_total()
    ensures
        vstd::relations::total_ordering(val_leq()),
{
    assert forall|a: u64, b: u64| #[trigger] (val_leq())(a, b) && (val_leq())(b, a) implies a
        == b by {
        lemma_key_injective(a, b);
    }
}

/// A key/position pair; ordering pairs first by key and then by position
/// makes the order antisymmetric even when keys collide.
pub open spec fn pair_le(a: (u64, usize), b: (u64, usize)) -> bool {
    a.0 < b.0 || (a.0 == b.0 && a.1 <= b.1)
}

/// The comparison on key/position pairs, as a function value for `sort_by`.
pub open spec fn pair_leq() -> spec_fn((u64, usize), (u64, usize)) -> bool {
    |a: (u64, usize), b: (u64, usize)| pair_le(a, b)
}

/// `pair_leq` is a total order.
pub proof fn lemma_pair_leq_total()
    ensures
        vstd::relations::total_ordering(pair_leq()),
{
}

/// Computes the order key of a bit pattern.
pub fn key_of(b: u64) -> (k: u64)
    ensures
        k == key(b),
{
    if b < 0x8000_0000_0000_0000 {
        b + 0x8000_0000_0000_0000
    } else {
        0xFFFF_FFFF_FFFF_FFFF - b
    }
}

/// Compares two bit patterns in the order of their encoded values.
pub fn lt_bits(a: u64, b: u64) -> (r: bool)
    ensures
        r == lt_val(a, b),
{
    key_of(a) < key_of(b)
}

} // verus!
