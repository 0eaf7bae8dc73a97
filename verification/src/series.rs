//! Construction of the plot series.
//!
//! A plot point pairs two float bit patterns. Which points are built depends
//! on the axis choices: index mode emits one point per element in entry
//! order; the z-score and value modes emit points sorted ascending by the
//! x coordinate; the frequency modes emit one point per distinct value. The
//! caller supplies, besides the sample, the bit patterns of the small natural
//! numbers (for index and count coordinates) and of each element's z-score,
//! since turning those numbers into float bits is no integer work.
//!
//! The index/frequency combination deliberately yields an empty series,
//! matching the behaviour of the statistics tool this library models.

use vstd::prelude::*;

use crate::order::{
    key, key_of, le_val, lemma_pair_leq_total, lemma_val_leq_total, lt_val, pair_le, pair_leq,
    val_leq,
};
use crate::stats::{
    get_frequencies, group_seq, lemma_group_ascending, lemma_group_counts_bounds,
    lemma_group_counts_exact, sort_values,
};
use vstd::multiset::Multiset;
use vstd::pervasive::unreached;

verus! {

/// Choice of the x coordinate of the plot.
#[derive(Clone, Copy, PartialEq, Eq, Structural, Debug)]
pub enum XAxis {
    Index,
    ZScore,
    Value,
}

/// Choice of the y coordinate of the plot.
#[derive(Clone, Copy, PartialEq, Eq, Structural, Debug)]
pub enum YAxis {
    Value,
    Frequency,
}

/// The display choices: sample or population variance divisor, and the two
/// axis modes.
#[derive(Clone, Copy, PartialEq, Eq, Structural, Debug)]
pub struct DisplayOptions {
    pub is_sample: bool,
    pub x_axis: XAxis,
    pub y_axis: YAxis,
}

/// One plot point, both coordinates as float bit patterns.
#[derive(Clone, Copy, PartialEq, Eq, Structural, Debug)]
pub struct PlotPoint {
    pub x: u64,
    pub y: u64,
}

/// Each point's x key paired with its position, the unit of the stable sort.
pub open spec fn point_key_pairs(s: Seq<PlotPoint>) -> Seq<(u64, usize)> {
    Seq::new(s.len(), |i: int| (key(s[i].x), i as usize))
}

/// The points sorted ascending by the value their x encodes, points with
/// equal x keys keeping their relative order: sort the key/position pairs —
/// a total order, since positions differ — and read the points back off.
pub open spec fn stable_sort_points(s: Seq<PlotPoint>) -> Seq<PlotPoint> {
    point_key_pairs(s).sort_by(pair_leq()).map_values(|p: (u64, usize)| s[p.1 as int])
}

/// The position of the first occurrence of `v`, counted from the front.
pub open spec fn first_index(s: Seq<u64>, v: u64) -> int
    decreases s.len(),
{
    if s.len() == 0 {
        0
    } else if s[0] == v {
        0
    } else {
        1 + first_index(s.drop_first(), v)
    }
}

/// The frequency groups of a sample: its sorted copy grouped into runs.
pub open spec fn freq_groups(data: Seq<u64>) -> Seq<(u64, usize)> {
    group_seq(data.sort_by(val_leq()))
}

/// One point per distinct value: y is the bit pattern of the count, x the
/// value itself or, in z-score mode, the z-score bits of its first occurrence.
pub open spec fn freq_points(
    data: Seq<u64>,
    nat_bits: Seq<u64>,
    z_bits: Seq<u64>,
    use_z: bool,
) -> Seq<PlotPoint> {
    freq_groups(data).map_values(
        |g: (u64, usize)|
            (PlotPoint {
                x: if use_z {
                    z_bits[first_index(data, g.0)]
                } else {
                    g.0
                },
                y: nat_bits[g.1 as int],
            }),
    )
}

/// The whole series, by axis mode. `nat_bits[k]` must encode the number `k`
/// and `z_bits[i]` the z-score of element `i`; both come from the caller.
pub open spec fn series_spec(
    data: Seq<u64>,
    nat_bits: Seq<u64>,
    z_bits: Seq<u64>,
    x_axis: XAxis,
    y_axis: YAxis,
) -> Seq<PlotPoint> {
    match (x_axis, y_axis) {
        (XAxis::Index, YAxis::Value) => Seq::new(
            data.len(),
            |i: int| (PlotPoint { x: nat_bits[i], y: data[i] }),
        ),
        (XAxis::Index, YAxis::Frequency) => Seq::<PlotPoint>::empty(),
        (XAxis::ZScore, YAxis::Value) => stable_sort_points(
            Seq::new(data.len(), |i: int| (PlotPoint { x: z_bits[i], y: data[i] })),
        ),
        (XAxis::Value, YAxis::Value) => stable_sort_points(
            Seq::new(data.len(), |i: int| (PlotPoint { x: data[i], y: data[i] })),
        ),
        (XAxis::ZScore, YAxis::Frequency) => stable_sort_points(
            freq_points(data, nat_bits, z_bits, true),
        ),
        (XAxis::Value, YAxis::Frequency) => freq_points(data, nat_bits, z_bits, false),
    }
}

/// Compares key/position pairs strictly.
fn pair_lt(a: (u64, usize), b: (u64, usize)) -> (r: bool)
    ensures
        r == !pair_le(b, a),
{
    a.0 < b.0 || (a.0 == b.0 && a.1 < b.1)
}

/// Inserts a pair into a vector sorted by `pair_leq`, keeping it sorted.
fn insert_sorted_pair(v: &mut Vec<(u64, usize)>, x: (u64, usize))
    requires
        vstd::relations::sorted_by(old(v)@, pair_leq()),
    ensures
        vstd::relations::sorted_by(final(v)@, pair_leq()),
        final(v)@.to_multiset() == old(v)@.to_multiset().insert(x),
{
    let mut j: usize = v.len();
    while j > 0 && pair_lt(x, v[j - 1])
        invariant
            j <= v@.len(),
            vstd::relations::sorted_by(v@, pair_leq()),
            v == old(v),
            forall|k: int| j <= k < v@.len() ==> !pair_le(#[trigger] v@[k], x),
        decreases j,
    {
        j -= 1;
    }
    let ghost s = v@;
    v.insert(j, x);
    proof {
        s.insert_ensures(j as int, x);
        broadcast use vstd::seq_lib::group_to_multiset_ensures;

        assert(v@.to_multiset() =~= s.to_multiset().insert(x));
        assert forall|k1: int, k2: int| 0 <= k1 < k2 < v@.len() implies (pair_leq())(
            v@[k1],
            v@[k2],
        ) by {
            if k1 < j && k2 == j {
                assert(pair_le(s[j - 1], x));
                if k1 < j - 1 {
                    assert((pair_leq())(s[k1], s[j - 1]));
                }
            } else if k1 == j && k2 > j {
                assert(!pair_le(s[k2 - 1], x));
            } else if k1 < j && k2 > j {
                assert((pair_leq())(s[k1], s[k2 - 1]));
            }
        }
    }
}

proof fn lemma_empty_multiset<A>(s: Seq<A>)
    requires
        s.len() == 0,
    ensures
        s.to_multiset() =~= Multiset::<A>::empty(),
{
    broadcast use vstd::seq_lib::group_to_multiset_ensures;
    broadcast use vstd::multiset::group_multiset_axioms;

    assert forall|x: A| s.to_multiset().count(x) == 0 by {
        if s.to_multiset().count(x) > 0 {
            assert(s.contains(x));
        }
    }
}

proof fn lemma_map_multiset<A, B>(a: Seq<A>, b: Seq<A>, f: spec_fn(A) -> B)
    requires
        a.to_multiset() == b.to_multiset(),
    ensures
        a.map_values(f).to_multiset() == b.map_values(f).to_multiset(),
    decreases a.len(),
{
    broadcast use vstd::seq_lib::group_to_multiset_ensures;
    broadcast use vstd::multiset::group_multiset_axioms;

    if a.len() == 0 {
        assert(a.to_multiset().len() == a.len());
        assert(b.to_multiset().len() == b.len());
        assert(b.len() == 0);
        assert(a.map_values(f) =~= Seq::<B>::empty());
        assert(b.map_values(f) =~= Seq::<B>::empty());
    } else {
        let x = a[0];
        assert(a.contains(x));
        assert(b.to_multiset().count(x) > 0);
        assert(b.contains(x));
        let j = choose|j: int| 0 <= j < b.len() && b[j] == x;
        assert(a.remove(0).to_multiset() =~= a.to_multiset().remove(x));
        assert(b.remove(j).to_multiset() =~= b.to_multiset().remove(x));
        lemma_map_multiset(a.remove(0), b.remove(j), f);
        let am = a.map_values(f).to_multiset();
        let bm = b.map_values(f).to_multiset();
        assert(a.map_values(f)[0] == f(x));
        assert(a.map_values(f).contains(f(x)));
        assert(am.count(f(x)) > 0);
        assert(b.map_values(f)[j] == f(x));
        assert(b.map_values(f).contains(f(x)));
        assert(bm.count(f(x)) > 0);
        assert(a.map_values(f).remove(0) =~= a.remove(0).map_values(f));
        assert(b.map_values(f).remove(j) =~= b.remove(j).map_values(f));
        assert(a.map_values(f).remove(0).to_multiset() =~= am.remove(f(x)));
        assert(b.map_values(f).remove(j).to_multiset() =~= bm.remove(f(x)));
        assert(am.remove(f(x)) =~= bm.remove(f(x)));
        assert forall|y: B| am.count(y) == bm.count(y) by {
            if y == f(x) {
                assert(am.remove(y).count(y) == am.count(y) - 1);
                assert(bm.remove(y).count(y) == bm.count(y) - 1);
            } else {
                assert(am.remove(f(x)).count(y) == am.count(y));
                assert(bm.remove(f(x)).count(y) == bm.count(y));
            }
        }
        assert(am =~= bm);
    }
}

/// The stably sorted points are a permutation of the given points, ascending
/// by the value their x coordinate encodes.
pub proof fn lemma_stable_sort_points_ensures(s: Seq<PlotPoint>)
    requires
        s.len() <= usize::MAX,
    ensures
        stable_sort_points(s).len() == s.len(),
        stable_sort_points(s).to_multiset() == s.to_multiset(),
        forall|i: int, j: int|
            0 <= i < j < s.len() ==> le_val(
                (#[trigger] stable_sort_points(s)[i]).x,
                (#[trigger] stable_sort_points(s)[j]).x,
            ),
{
    broadcast use vstd::seq_lib::group_to_multiset_ensures;

    let pkp = point_key_pairs(s);
    lemma_pair_leq_total();
    pkp.lemma_sort_by_ensures(pair_leq());
    let ssp = pkp.sort_by(pair_leq());
    assert(ssp.to_multiset().len() == ssp.len());
    assert(pkp.to_multiset().len() == pkp.len());
    assert(ssp.len() == pkp.len());
    let f = |p: (u64, usize)| s[p.1 as int];
    assert(stable_sort_points(s) == ssp.map_values(f));
    assert forall|k: int| 0 <= k < ssp.len() implies #[trigger] ssp[k].0 == key(
        s[ssp[k].1 as int].x,
    ) && ssp[k].1 < s.len() by {
        assert(ssp.contains(ssp[k]));
        assert(pkp.to_multiset().count(ssp[k]) > 0);
        assert(pkp.contains(ssp[k]));
        let i0 = choose|i0: int| 0 <= i0 < pkp.len() && pkp[i0] == ssp[k];
        assert(pkp[i0] == (key(s[i0].x), i0 as usize));
    }
    assert forall|i: int, j: int| 0 <= i < j < s.len() implies le_val(
        (stable_sort_points(s)[i]).x,
        (stable_sort_points(s)[j]).x,
    ) by {
        assert((pair_leq())(ssp[i], ssp[j]));
        assert(stable_sort_points(s)[i] == s[ssp[i].1 as int]);
        assert(stable_sort_points(s)[j] == s[ssp[j].1 as int]);
    }
    lemma_map_multiset(ssp, pkp, f);
    assert(pkp.map_values(f) =~= s);
}

/// The value/frequency series needs no sorting pass: its x coordinates are
/// the distinct sample values, and those come out strictly ascending.
pub proof fn lemma_value_frequency_sorted(data: Seq<u64>, nat_bits: Seq<u64>, z_bits: Seq<u64>)
    ensures
        forall|i: int, j: int|
            0 <= i < j < freq_points(data, nat_bits, z_bits, false).len() ==> lt_val(
                (#[trigger] freq_points(data, nat_bits, z_bits, false)[i]).x,
                (#[trigger] freq_points(data, nat_bits, z_bits, false)[j]).x,
            ),
{
    let s = data.sort_by(val_leq());
    lemma_val_leq_total();
    data.lemma_sort_by_ensures(val_leq());
    lemma_group_ascending(s);
    let fp = freq_points(data, nat_bits, z_bits, false);
    assert forall|i: int, j: int| 0 <= i < j < fp.len() implies lt_val(fp[i].x, fp[j].x) by {
        assert(fp[i].x == freq_groups(data)[i].0);
        assert(fp[j].x == freq_groups(data)[j].0);
    }
}

/// Finds the first occurrence of a value known to be present.
fn index_of(d: &Vec<u64>, v: u64) -> (r: usize)
    requires
        d@.contains(v),
    ensures
        r as int == first_index(d@, v),
        r < d@.len(),
        d@[r as int] == v,
{
    let n = d.len();
    let mut i: usize = 0;
    while i < n
        invariant
            i <= n,
            n == d@.len(),
            d@.contains(v),
            forall|k: int| 0 <= k < i ==> d@[k] != v,
        decreases n - i,
    {
        if d[i] == v {
            proof {
                lemma_first_index_at(d@, v, i as int);
            }
            return i;
        }
        i += 1;
    }
    proof {
        let k = choose|k: int| 0 <= k < d@.len() && d@[k] == v;
        assert(false);
    }
    unreached()
}

proof fn lemma_first_index_at(s: Seq<u64>, v: u64, k: int)
    requires
        0 <= k < s.len(),
        s[k] == v,
        forall|m: int| 0 <= m < k ==> s[m] != v,
    ensures
        first_index(s, v) == k,
    decreases k,
{
    if k > 0 {
        lemma_first_index_at(s.drop_first(), v, k - 1);
    }
}

/// Builds one point per element, x coordinates from one vector and y from
/// the other, in entry order.
fn element_points(xs: &Vec<u64>, ys: &Vec<u64>) -> (r: Vec<PlotPoint>)
    requires
        xs@.len() == ys@.len(),
    ensures
        r@ == Seq::new(xs@.len(), |i: int| (PlotPoint { x: xs@[i], y: ys@[i] })),
{
    let n = xs.len();
    let mut out: Vec<PlotPoint> = Vec::new();
    let mut i: usize = 0;
    while i < n
        invariant
            i <= n,
            n == xs@.len(),
            xs@.len() == ys@.len(),
            out@.len() == i,
            forall|k: int| 0 <= k < i ==> out@[k] == (PlotPoint { x: xs@[k], y: ys@[k] }),
        decreases n - i,
    {
        out.push(PlotPoint { x: xs[i], y: ys[i] });
        i += 1;
    }
    proof {
        assert(out@ =~= Seq::new(xs@.len(), |i: int| (PlotPoint { x: xs@[i], y: ys@[i] })));
    }
    out
}

/// Sorts points ascending by the value their x coordinate encodes; points
/// with equal x keys keep their relative order.
pub fn sort_points(pts: &Vec<PlotPoint>) -> (r: Vec<PlotPoint>)
    ensures
        r@ == stable_sort_points(pts@),
{
    let n = pts.len();
    let mut sp: Vec<(u64, usize)> = Vec::new();
    proof {
        lemma_empty_multiset(sp@);
        lemma_empty_multiset(point_key_pairs(pts@).take(0));
    }
    let mut i: usize = 0;
    while i < n
        invariant
            i <= n,
            n == pts@.len(),
            vstd::relations::sorted_by(sp@, pair_leq()),
            sp@.to_multiset() == point_key_pairs(pts@).take(i as int).to_multiset(),
        decreases n - i,
    {
        let k = key_of(pts[i].x);
        insert_sorted_pair(&mut sp, (k, i));
        proof {
            broadcast use vstd::seq_lib::group_to_multiset_ensures;

            let pkp = point_key_pairs(pts@);
            assert(pkp.take(i + 1).drop_last() =~= pkp.take(i as int));
            assert(pkp.take(i + 1) =~= pkp.take(i as int).push((key(pts@[i as int].x), i)));
        }
        i += 1;
    }
    let ghost pkp = point_key_pairs(pts@);
    let ghost ssp = pkp.sort_by(pair_leq());
    proof {
        assert(pkp.take(n as int) =~= pkp);
        lemma_pair_leq_total();
        pkp.lemma_sort_by_ensures(pair_leq());
        vstd::seq_lib::lemma_sorted_unique(sp@, ssp, pair_leq());
        assert(sp@ == ssp);
        broadcast use vstd::seq_lib::group_to_multiset_ensures;

        assert(sp@.to_multiset().len() == sp@.len());
        assert(pkp.to_multiset().len() == pkp.len());
        assert(sp@.len() == n);
    }
    let mut out: Vec<PlotPoint> = Vec::new();
    let mut j: usize = 0;
    while j < n
        invariant
            j <= n,
            n == pts@.len(),
            sp@ == ssp,
            ssp == pkp.sort_by(pair_leq()),
            pkp == point_key_pairs(pts@),
            sp@.len() == n,
            out@.len() == j,
            forall|k: int| 0 <= k < j ==> out@[k] == pts@[ssp[k].1 as int],
        decreases n - j,
    {
        proof {
            broadcast use vstd::seq_lib::group_to_multiset_ensures;

            lemma_pair_leq_total();
            pkp.lemma_sort_by_ensures(pair_leq());
            assert(ssp.contains(ssp[j as int]));
            assert(pkp.to_multiset().count(ssp[j as int]) > 0);
            assert(pkp.contains(ssp[j as int]));
            let i0 = choose|i0: int| 0 <= i0 < pkp.len() && pkp[i0] == ssp[j as int];
            assert(pkp[i0] == (key(pts@[i0].x), i0 as usize));
            assert(ssp[j as int].1 < n);
        }
        let idx = sp[j].1;
        out.push(pts[idx]);
        j += 1;
    }
    proof {
        assert(out@ =~= stable_sort_points(pts@));
    }
    out
}

/// Builds the frequency series: one point per distinct value of the sample,
/// counts as y, the value or its first occurrence's z-score as x.
fn freq_series(data: &Vec<u64>, nat_bits: &Vec<u64>, z_bits: &Vec<u64>, use_z: bool) -> (r: Vec<
    PlotPoint,
>)
    requires
        nat_bits@.len() == data@.len() + 1,
        z_bits@.len() == data@.len(),
    ensures
        r@ == freq_points(data@, nat_bits@, z_bits@, use_z),
{
    let sorted = sort_values(data);
    let groups = get_frequencies(&sorted);
    let ns = sorted.len();
    proof {
        assert(sorted@.len() == ns);
    }
    proof {
        broadcast use vstd::seq_lib::group_to_multiset_ensures;

        assert(groups@ == freq_groups(data@));
        assert(sorted@.to_multiset().len() == sorted@.len());
        assert(data@.to_multiset().len() == data@.len());
        assert(sorted@.len() == data@.len());
        lemma_group_counts_bounds(sorted@);
        lemma_group_counts_exact(sorted@);
    }
    let m = groups.len();
    let ghost fp = freq_points(data@, nat_bits@, z_bits@, use_z);
    let mut out: Vec<PlotPoint> = Vec::new();
    let mut j: usize = 0;
    while j < m
        invariant
            j <= m,
            m == groups@.len(),
            groups@ == freq_groups(data@),
            nat_bits@.len() == data@.len() + 1,
            z_bits@.len() == data@.len(),
            sorted@.len() == data@.len(),
            sorted@.to_multiset() == data@.to_multiset(),
            groups@ == group_seq(sorted@),
            sorted@.len() <= usize::MAX,
            forall|i: int|
                0 <= i < groups@.len() ==> 1 <= (#[trigger] groups@[i]).1 <= sorted@.len(),
            forall|i: int|
                0 <= i < groups@.len() ==> (#[trigger] groups@[i]).1 == sorted@.to_multiset().count(
                    groups@[i].0,
                ),
            fp == freq_points(data@, nat_bits@, z_bits@, use_z),
            out@.len() == j,
            forall|k: int| 0 <= k < j ==> out@[k] == fp[k],
        decreases m - j,
    {
        let g = groups[j];
        proof {
            broadcast use vstd::seq_lib::group_to_multiset_ensures;

            assert(g.1 == sorted@.to_multiset().count(g.0));
            assert(data@.to_multiset().count(g.0) > 0);
            assert(data@.contains(g.0));
        }
        let x = if use_z {
            let idx = index_of(data, g.0);
            z_bits[idx]
        } else {
            g.0
        };
        out.push(PlotPoint { x, y: nat_bits[g.1] });
        proof {
            assert(fp[j as int] == (PlotPoint {
                x: if use_z {
                    z_bits@[first_index(data@, g.0)]
                } else {
                    g.0
                },
                y: nat_bits@[g.1 as int],
            }));
        }
        j += 1;
    }
    proof {
        assert(out@ =~= fp);
    }
    out
}

/// Builds the plot series for the given axis choices. `nat_bits[k]` holds the
/// float bits of the number `k`, up to and including the sample's length;
/// `z_bits[i]` holds the float bits of element `i`'s z-score. Entry order is
/// kept in index mode, every other mode sorts ascending by x; the
/// index/frequency combination yields the empty series.
pub fn build_series(
    data: &Vec<u64>,
    nat_bits: &Vec<u64>,
    z_bits: &Vec<u64>,
    opts: &DisplayOptions,
) -> (r: Vec<PlotPoint>)
    requires
        nat_bits@.len() == data@.len() + 1,
        z_bits@.len() == data@.len(),
    ensures
        r@ == series_spec(data@, nat_bits@, z_bits@, opts.x_axis, opts.y_axis),
{
    match (opts.x_axis, opts.y_axis) {
        (XAxis::Index, YAxis::Value) => {
            let n = data.len();
            let mut out: Vec<PlotPoint> = Vec::new();
            let mut i: usize = 0;
            while i < n
                invariant
                    i <= n,
                    n == data@.len(),
                    nat_bits@.len() == data@.len() + 1,
                    out@.len() == i,
                    forall|k: int|
                        0 <= k < i ==> out@[k] == (PlotPoint { x: nat_bits@[k], y: data@[k] }),
                decreases n - i,
            {
                out.push(PlotPoint { x: nat_bits[i], y: data[i] });
                i += 1;
            }
            proof {
                assert(out@ =~= series_spec(data@, nat_bits@, z_bits@, opts.x_axis, opts.y_axis));
            }
            out
        },
        (XAxis::Index, YAxis::Frequency) => {
            let out: Vec<PlotPoint> = Vec::new();
            proof {
                assert(out@ =~= series_spec(data@, nat_bits@, z_bits@, opts.x_axis, opts.y_axis));
            }
            out
        },
        (XAxis::ZScore, YAxis::Value) => {
            let pts = element_points(z_bits, data);
            sort_points(&pts)
        },
        (XAxis::Value, YAxis::Value) => {
            let pts = element_points(data, data);
            sort_points(&pts)
        },
        (XAxis::ZScore, YAxis::Frequency) => {
            let pts = freq_series(data, nat_bits, z_bits, true);
            sort_points(&pts)
        },
        (XAxis::Value, YAxis::Frequency) => freq_series(data, nat_bits, z_bits, false),
    }
}

} // verus!
