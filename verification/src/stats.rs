//! The statistics engine's integer core: sorting a sample, picking the
//! elements that make the median, and grouping equal values by frequency.
//!
//! A sample is a vector of 64-bit float bit patterns in entry order. Sorting
//! follows the total order of `crate::order`; the median is the middle element
//! of the sorted copy, or the pair of middle elements for an even count; a
//! frequency group pairs a value with the number of its occurrences, where two
//! values count as the same exactly when their bit patterns are identical.

use vstd::prelude::*;

use crate::order::{
    le_val, lemma_key_injective, lemma_val_leq_total, lt_bits, lt_val, sorted_vals, val_leq,
};

verus! {

/// Inserts a value into a vector sorted ascending, keeping it sorted.
fn insert_sorted(v: &mut Vec<u64>, x: u64)
    requires
        sorted_vals(old(v)@),
    ensures
        sorted_vals(final(v)@),
        final(v)@.to_multiset() == old(v)@.to_multiset().insert(x),
{
    let mut j: usize = v.len();
    while j > 0 && lt_bits(x, v[j - 1])
        invariant
            j <= v@.len(),
            sorted_vals(v@),
            v == old(v),
            forall|k: int| j <= k < v@.len() ==> lt_val(x, #[trigger] v@[k]),
        decreases j,
    {
        j -= 1;
    }
    let ghost s = v@;
    v.insert(j, x);
    proof {
        s.insert_ensures(j as int, x);
        broadcast use vstd::seq_lib::group_to_multiset_ensures;

        assert(v@.to_multiset() =~= s.to_multiset().insert(x));
        assert forall|k1: int, k2: int| 0 <= k1 < k2 < v@.len() implies (val_leq())(
            v@[k1],
            v@[k2],
        ) by {
            if k1 < j && k2 == j {
                assert(le_val(s[j - 1], x));
                if k1 < j - 1 {
                    assert((val_leq())(s[k1], s[j - 1]));
                }
            } else if k1 == j && k2 > j {
                assert(lt_val(x, s[k2 - 1]));
            } else if k1 < j && k2 > j {
                assert((val_leq())(s[k1], s[k2 - 1]));
            }
        }
    }
}

/// Sorts a copy of the sample ascending by encoded value. The result is the
/// one sorted permutation of the input: it equals the specification-level
/// `sort_by` and keeps the multiset of values.
pub fn sort_values(data: &Vec<u64>) -> (r: Vec<u64>)
    ensures
        r@ == data@.sort_by(val_leq()),
        sorted_vals(r@),
        r@.to_multiset() == data@.to_multiset(),
{
    let n = data.len();
    let mut out: Vec<u64> = Vec::new();
    proof {
        broadcast use vstd::seq_lib::group_to_multiset_ensures;

        assert(out@.to_multiset() =~= data@.take(0).to_multiset());
    }
    let mut i: usize = 0;
    while i < n
        invariant
            i <= n,
            n == data@.len(),
            sorted_vals(out@),
            out@.to_multiset() == data@.take(i as int).to_multiset(),
        decreases n - i,
    {
        insert_sorted(&mut out, data[i]);
        proof {
            broadcast use vstd::seq_lib::group_to_multiset_ensures;

            assert(data@.take(i + 1).drop_last() =~= data@.take(i as int));
            assert(data@.take(i + 1) =~= data@.take(i as int).push(data@[i as int]));
        }
        i += 1;
    }
    proof {
        assert(data@.take(n as int) =~= data@);
        lemma_val_leq_total();
        data@.lemma_sort_by_ensures(val_leq());
        vstd::seq_lib::lemma_sorted_unique(out@, data@.sort_by(val_leq()), val_leq());
    }
    out
}

/// The elements of a sorted sample that determine its median: none for an
/// empty sample, the single middle element for an odd count, the two middle
/// elements for an even count — their average is the median.
#[derive(Clone, Copy, PartialEq, Eq, Structural, Debug)]
pub enum MedianPick {
    Empty,
    Single(u64),
    Pair(u64, u64),
}

/// Which elements of a sorted sequence make the median, by index: the one at
/// `len / 2` for an odd length, those at `len / 2 - 1` and `len / 2` for an
/// even positive length.
pub open spec fn median_pick_spec(s: Seq<u64>) -> MedianPick {
    if s.len() == 0 {
        MedianPick::Empty
    } else if s.len() % 2 == 1 {
        MedianPick::Single(s[s.len() as int / 2])
    } else {
        MedianPick::Pair(s[s.len() as int / 2 - 1], s[s.len() as int / 2])
    }
}

/// Picks the median element(s) of the sorted sample.
pub fn median_pick(sorted: &Vec<u64>) -> (r: MedianPick)
    ensures
        r == median_pick_spec(sorted@),
{
    let n = sorted.len();
    if n == 0 {
        MedianPick::Empty
    } else if n % 2 == 1 {
        MedianPick::Single(sorted[n / 2])
    } else {
        MedianPick::Pair(sorted[n / 2 - 1], sorted[n / 2])
    }
}

/// Extends a run-length grouping by one value: merged into the last group if
/// the bit patterns are identical, otherwise opening a new group.
pub open spec fn add_to_groups(gs: Seq<(u64, usize)>, v: u64) -> Seq<(u64, usize)> {
    if gs.len() > 0 && gs.last().0 == v {
        gs.update(gs.len() - 1, (v, (gs.last().1 + 1) as usize))
    } else {
        gs.push((v, 1usize))
    }
}

/// The run-length grouping of a sequence: each run of identical bit patterns
/// becomes one (value, count) group. On a sorted sequence the runs are exactly
/// the occurrence classes, so the count of each group is the frequency of its
/// value.
pub open spec fn group_seq(s: Seq<u64>) -> Seq<(u64, usize)>
    decreases s.len(),
{
    if s.len() == 0 {
        Seq::<(u64, usize)>::empty()
    } else {
        add_to_groups(group_seq(s.drop_last()), s.last())
    }
}

/// Every group counts at least one and at most all elements.
pub proof fn lemma_group_counts_bounds(s: Seq<u64>)
    requires
        s.len() <= usize::MAX,
    ensures
        forall|i: int|
            0 <= i < group_seq(s).len() ==> 1 <= (#[trigger] group_seq(s)[i]).1 <= s.len(),
    decreases s.len(),
{
    if s.len() > 0 {
        lemma_group_counts_bounds(s.drop_last());
        let gs0 = group_seq(s.drop_last());
        assert(group_seq(s) == add_to_groups(gs0, s.last()));
        assert forall|i: int| 0 <= i < group_seq(s).len() implies 1 <= (#[trigger] group_seq(
            s,
        )[i]).1 <= s.len() by {
            if i < gs0.len() {
                assert(1 <= gs0[i].1 <= s.drop_last().len());
            }
        }
    }
}

/// Groups the values of a sample by runs of identical bit patterns. Called on
/// a sorted sample this is the frequency count of each distinct value.
pub fn get_frequencies(d: &Vec<u64>) -> (r: Vec<(u64, usize)>)
    ensures
        r@ == group_seq(d@),
{
    let n = d.len();
    let mut out: Vec<(u64, usize)> = Vec::new();
    let mut i: usize = 0;
    while i < n
        invariant
            i <= n,
            n == d@.len(),
            out@ == group_seq(d@.take(i as int)),
        decreases n - i,
    {
        proof {
            assert(d@.take(i + 1).drop_last() =~= d@.take(i as int));
            assert(d@.take(i + 1).last() == d@[i as int]);
            lemma_group_counts_bounds(d@.take(i as int));
        }
        let v = d[i];
        let m = out.len();
        if m > 0 && out[m - 1].0 == v {
            let last = out[m - 1];
            out.pop();
            out.push((v, last.1 + 1));
            proof {
                assert(out@ =~= group_seq(d@.take(i + 1)));
            }
        } else {
            out.push((v, 1));
            proof {
                assert(out@ =~= group_seq(d@.take(i + 1)));
            }
        }
        i += 1;
    }
    proof {
        assert(d@.take(n as int) =~= d@);
    }
    out
}

proof fn lemma_sorted_drop_last(s: Seq<u64>)
    requires
        sorted_vals(s),
        s.len() > 0,
    ensures
        sorted_vals(s.drop_last()),
{
    assert forall|i: int, j: int| 0 <= i < j < s.drop_last().len() implies (val_leq())(
        s.drop_last()[i],
        s.drop_last()[j],
    ) by {
        assert((val_leq())(s[i], s[j]));
    }
}

/// On a sorted sequence, the grouped values come out in strictly ascending
/// order — distinct bit patterns never merge — and the last group carries the
/// last (largest) value.
pub proof fn lemma_group_ascending(s: Seq<u64>)
    requires
        sorted_vals(s),
    ensures
        forall|i: int, j: int|
            0 <= i < j < group_seq(s).len() ==> lt_val(
                (#[trigger] group_seq(s)[i]).0,
                (#[trigger] group_seq(s)[j]).0,
            ),
        s.len() > 0 ==> group_seq(s).len() >= 1 && group_seq(s).last().0 == s.last(),
    decreases s.len(),
{
    if s.len() > 0 {
        let s0 = s.drop_last();
        let v = s.last();
        lemma_sorted_drop_last(s);
        lemma_group_ascending(s0);
        let gs0 = group_seq(s0);
        if s0.len() > 0 {
            assert((val_leq())(s[s.len() - 2], s[s.len() - 1]));
            assert(le_val(gs0.last().0, v));
            if gs0.last().0 != v {
                lemma_key_injective(gs0.last().0, v);
                assert(lt_val(gs0.last().0, v));
                assert forall|i: int, j: int|
                    0 <= i < j < group_seq(s).len() implies lt_val(
                    (group_seq(s)[i]).0,
                    (group_seq(s)[j]).0,
                ) by {
                    if j == group_seq(s).len() - 1 && i < gs0.len() {
                        if i < gs0.len() - 1 {
                            assert(lt_val(gs0[i].0, gs0.last().0));
                        }
                    }
                }
            }
        }
    }
}

/// Frequency counting is exact: on a sorted sequence, each group's count is
/// the number of occurrences — by exact bit equality — of its value in the
/// sequence.
pub proof fn lemma_group_counts_exact(s: Seq<u64>)
    requires
        sorted_vals(s),
        s.len() <= usize::MAX,
    ensures
        forall|i: int|
            0 <= i < group_seq(s).len() ==> (#[trigger] group_seq(s)[i]).1
                == s.to_multiset().count(group_seq(s)[i].0),
    decreases s.len(),
{
    broadcast use vstd::seq_lib::group_to_multiset_ensures;
    broadcast use vstd::multiset::group_multiset_axioms;

    if s.len() == 0 {
        assert(group_seq(s).len() == 0);
    } else {
        let s0 = s.drop_last();
        let v = s.last();
        lemma_sorted_drop_last(s);
        lemma_group_counts_exact(s0);
        lemma_group_counts_bounds(s0);
        lemma_group_ascending(s0);
        let gs0 = group_seq(s0);
        assert(s =~= s0.push(v));
        assert(s.to_multiset() =~= s0.to_multiset().insert(v));
        if gs0.len() > 0 && gs0.last().0 == v {
            assert forall|i: int|
                0 <= i < group_seq(s).len() implies (group_seq(s)[i]).1 == s.to_multiset().count(
                group_seq(s)[i].0,
            ) by {
                if i < gs0.len() - 1 {
                    assert(lt_val(gs0[i].0, v));
                    lemma_key_injective(gs0[i].0, v);
                    assert(gs0[i].0 != v);
                }
            }
        } else {
            // the new value closes no earlier run: it does not occur before
            if s0.to_multiset().count(v) > 0 {
                assert(s0.contains(v));
                let k = choose|k: int| 0 <= k < s0.len() && s0[k] == v;
                assert((val_leq())(s0[k], s0[s0.len() - 1]));
                assert((val_leq())(s[s0.len() - 1], s[s.len() - 1]));
                lemma_key_injective(s0.last(), v);
                assert(s0.last() == v);
                assert(gs0.last().0 == v);
                assert(false);
            }
            assert forall|i: int|
                0 <= i < group_seq(s).len() implies (group_seq(s)[i]).1 == s.to_multiset().count(
                group_seq(s)[i].0,
            ) by {
                if i < gs0.len() {
                    if gs0.len() > 0 {
                        if i < gs0.len() - 1 {
                            assert(lt_val(gs0[i].0, gs0.last().0));
                        }
                        assert(le_val(gs0[i].0, gs0.last().0));
                        if gs0[i].0 == v {
                            assert(le_val(gs0.last().0, v) || gs0.last().0 == v || lt_val(
                                gs0[i].0,
                                gs0.last().0,
                            ));
                            assert(s0.to_multiset().count(v) >= 1);
                            assert(false);
                        }
                    }
                }
            }
        }
    }
}

/// A sample of one value repeated: sorting leaves it unchanged, the frequency
/// grouping is the single group (value, count), and the median elements are
/// that value itself — so mean, median and deviation all read off the one
/// value.
pub proof fn lemma_constant_sample(data: Seq<u64>, v: u64)
    requires
        data.len() > 0,
        data.len() <= usize::MAX,
        forall|i: int| 0 <= i < data.len() ==> #[trigger] data[i] == v,
    ensures
        data.sort_by(val_leq()) == data,
        group_seq(data) =~= seq![(v, data.len() as usize)],
        median_pick_spec(data) == (if data.len() % 2 == 1 {
            MedianPick::Single(v)
        } else {
            MedianPick::Pair(v, v)
        }),
    decreases data.len(),
{
    assert(sorted_vals(data));
    lemma_val_leq_total();
    data.lemma_sort_by_ensures(val_leq());
    vstd::seq_lib::lemma_sorted_unique(data, data.sort_by(val_leq()), val_leq());
    if data.len() > 1 {
        lemma_constant_sample(data.drop_last(), v);
        assert(group_seq(data) =~= seq![(v, data.len() as usize)]);
    } else {
        assert(data.drop_last().len() == 0);
        assert(group_seq(data.drop_last()) =~= Seq::<(u64, usize)>::empty());
        assert(group_seq(data) == add_to_groups(Seq::<(u64, usize)>::empty(), data.last()));
        assert(group_seq(data) =~= seq![(v, 1usize)]);
    }
}

} // verus!
