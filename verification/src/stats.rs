//! Reduction of a sample set of cycle counts: sorting, the exact sum (from
//! which the mean is derived) and the indexed 99th-percentile entry.

use vstd::prelude::*;
use vstd::relations::{sorted_by, total_ordering};
use vstd::seq_lib::lemma_sorted_unique;

verus! {

/// The order the samples are sorted by.
pub open spec fn cycle_le() -> spec_fn(u64, u64) -> bool {
    |x: u64, y: u64| x <= y
}

/// `<=` on u64 is a total order.
pub proof fn lemma_cycle_le_total()
    ensures
        total_ordering(cycle_le()),
{
    assert(vstd::relations::reflexive(cycle_le()));
    assert(vstd::relations::antisymmetric(cycle_le()));
    assert(vstd::relations::transitive(cycle_le()));
    assert(vstd::relations::strongly_connected(cycle_le()));
}

/// The ascending rearrangement of a sample set.
pub open spec fn spec_sorted(s: Seq<u64>) -> Seq<u64> {
    s.sort_by(cycle_le())
}

/// The exact sum of a sample set.
pub open spec fn spec_sum(s: Seq<u64>) -> int
    decreases s.len(),
{
    if s.len() == 0 {
        0
    } else {
        spec_sum(s.drop_last()) + s.last()
    }
}

/// The index the tail percentile is read at: `floor(len * 99 / 100)`.
pub open spec fn percentile_index(len: int) -> int {
    len * 99 / 100
}

proof fn lemma_sum_bound(s: Seq<u64>)
    ensures
        0 <= spec_sum(s) <= s.len() * 0xFFFF_FFFF_FFFF_FFFFu64,
    decreases s.len(),
{
    if s.len() > 0 {
        lemma_sum_bound(s.drop_last());
        assert(s.len() * 0xFFFF_FFFF_FFFF_FFFFu64 == (s.len() - 1) * 0xFFFF_FFFF_FFFF_FFFFu64
            + 0xFFFF_FFFF_FFFF_FFFFu64) by (nonlinear_arith);
    }
}

/// Inserts `x` into an already sorted vector, keeping it sorted.
fn insert_sorted(out: &mut Vec<u64>, x: u64)
    requires
        sorted_by(old(out)@, cycle_le()),
        old(out)@.len() < usize::MAX,
    ensures
        sorted_by(final(out)@, cycle_le()),
        final(out)@.to_multiset() == old(out)@.to_multiset().insert(x),
        final(out)@.len() == old(out)@.len() + 1,
{
    let mut i: usize = 0;
    while i < out.len() && out[i] <= x
        invariant
            0 <= i <= out@.len(),
            forall|j: int| 0 <= j < i ==> (#[trigger] out@[j]) <= x,
            out@ == old(out)@,
        decreases out@.len() - i,
    {
        i = i + 1;
    }
    let ghost prev = out@;
    out.insert(i, x);
    proof {
        assert forall|a: int, b: int| 0 <= a < b < out@.len() implies #[trigger] cycle_le()(
            out@[a],
            out@[b],
        ) by {
            if b < i {
                assert(out@[a] == prev[a] && out@[b] == prev[b]);
                assert(cycle_le()(prev[a], prev[b]));
            } else if a > i {
                assert(out@[a] == prev[a - 1] && out@[b] == prev[b - 1]);
                assert(cycle_le()(prev[a - 1], prev[b - 1]));
            } else if a == i {
                assert(out@[a] == x && out@[b] == prev[b - 1]);
                assert(i < prev.len());
                assert(x < prev[i as int]);
                if i < b - 1 {
                    assert(cycle_le()(prev[i as int], prev[b - 1]));
                }
            } else if b == i {
                assert(out@[a] == prev[a] && out@[b] == x);
                assert(prev[a] <= x);
            } else {
                assert(a < i && b > i);
                assert(out@[a] == prev[a] && out@[b] == prev[b - 1]);
                assert(prev[a] <= x);
                assert(i < prev.len());
                assert(x < prev[i as int]);
                if i < b - 1 {
                    assert(cycle_le()(prev[i as int], prev[b - 1]));
                }
            }
        }
        vstd::seq_lib::to_multiset_insert(prev, i as int, x);
    }
}

/// Sorts a sample set ascending; the result is exactly the canonical
/// ascending rearrangement of the input.
pub fn sort_samples(samples: &Vec<u64>) -> (r: Vec<u64>)
    ensures
        r@ == spec_sorted(samples@),
        sorted_by(r@, cycle_le()),
        r@.to_multiset() == samples@.to_multiset(),
        r@.len() == samples@.len(),
{
    let mut out: Vec<u64> = Vec::new();
    let mut i: usize = 0;
    proof {
        assert(samples@.take(0) =~= Seq::<u64>::empty());
        Seq::<u64>::to_multiset_ensures(samples@.take(0));
        Seq::<u64>::to_multiset_ensures(out@);
    }
    while i < samples.len()
        invariant
            0 <= i <= samples@.len(),
            sorted_by(out@, cycle_le()),
            out@.to_multiset() == samples@.take(i as int).to_multiset(),
            out@.len() == i,
        decreases samples@.len() - i,
    {
        let ghost prev = out@;
        insert_sorted(&mut out, samples[i]);
        proof {
            assert(samples@.take(i as int).push(samples@[i as int]) =~= samples@.take(i + 1));
            Seq::<u64>::to_multiset_ensures(samples@.take(i as int));
        }
        i = i + 1;
    }
    proof {
        assert(samples@.take(i as int) =~= samples@);
        lemma_cycle_le_total();
        samples@.lemma_sort_by_ensures(cycle_le());
        lemma_sorted_unique(out@, samples@.sort_by(cycle_le()), cycle_le());
        Seq::<u64>::to_multiset_ensures(out@);
        Seq::<u64>::to_multiset_ensures(samples@);
    }
    out
}

/// The reduction of one sample set, before conversion to time units.
pub struct CycleStats {
    /// Number of samples.
    pub count: usize,
    /// Exact sum of all samples; the mean is `sum / count`.
    pub sum: u128,
    /// The entry at index `floor(count * 99 / 100)` of the ascending
    /// rearrangement of the samples.
    pub p99: u64,
}

/// Reduces a sample set: exact sum (for the mean) and the tail-percentile
/// entry of the ascending rearrangement, read at `floor(len * 99 / 100)`.
pub fn reduce(samples: &Vec<u64>) -> (r: CycleStats)
    requires
        samples@.len() > 0,
        samples@.len() <= usize::MAX / 99,
    ensures
        r.count == samples@.len(),
        r.sum == spec_sum(samples@),
        r.p99 == spec_sorted(samples@)[percentile_index(samples@.len() as int)],
{
    let sorted = sort_samples(samples);
    let mut sum: u128 = 0;
    let mut i: usize = 0;
    proof {
        assert(samples@.take(0) =~= Seq::<u64>::empty());
    }
    while i < samples.len()
        invariant
            0 <= i <= samples@.len(),
            sum == spec_sum(samples@.take(i as int)),
        decreases samples@.len() - i,
    {
        proof {
            lemma_sum_bound(samples@.take(i as int));
            assert(samples@.take(i as int).len() * 0xFFFF_FFFF_FFFF_FFFFu64 <= samples@.len()
                * 0xFFFF_FFFF_FFFF_FFFFu64) by (nonlinear_arith)
                requires samples@.take(i as int).len() <= samples@.len();
            assert(samples@.len() * 0xFFFF_FFFF_FFFF_FFFFu64 < 0xFFFF_FFFF_FFFF_FFFF_FFFF_FFFF_FFFF_FFFFu128)
                by (nonlinear_arith)
                requires samples@.len() <= 0xFFFF_FFFF_FFFF_FFFFu64;
            assert(samples@.take(i + 1).drop_last() =~= samples@.take(i as int));
            assert(samples@.take(i + 1).last() == samples@[i as int]);
        }
        sum = sum + samples[i] as u128;
        i = i + 1;
    }
    proof {
        assert(samples@.take(i as int) =~= samples@);
        assert(percentile_index(samples@.len() as int) < samples@.len()) by (nonlinear_arith)
            requires samples@.len() > 0;
        assert(percentile_index(samples@.len() as int) >= 0) by (nonlinear_arith)
            requires samples@.len() > 0;
    }
    let idx: usize = samples.len() * 99 / 100;
    let p99: u64 = sorted[idx];
    CycleStats { count: samples.len(), sum, p99 }
}

proof fn lemma_sum_scales(s: Seq<u64>, t: Seq<u64>, k: u64)
    requires
        t.len() == s.len(),
        forall|i: int| 0 <= i < s.len() ==> t[i] == k * s[i],
    ensures
        spec_sum(t) == k * spec_sum(s),
    decreases s.len(),
{
    if s.len() == 0 {
        assert(k * spec_sum(s) == 0) by (nonlinear_arith)
            requires
                spec_sum(s) == 0,
        ;
    } else {
        assert forall|i: int| 0 <= i < s.drop_last().len() implies t.drop_last()[i] == k
            * s.drop_last()[i] by {
            assert(t.drop_last()[i] == t[i] && s.drop_last()[i] == s[i]);
        }
        lemma_sum_scales(s.drop_last(), t.drop_last(), k);
        assert(t.last() == k * s.last());
        assert(k * spec_sum(s.drop_last()) + k * s.last() == k * (spec_sum(s.drop_last())
            + s.last())) by (nonlinear_arith);
    }
}

proof fn lemma_map_to_multiset(x: Seq<u64>, y: Seq<u64>, f: spec_fn(u64) -> u64)
    requires
        x.to_multiset() == y.to_multiset(),
    ensures
        x.map_values(f).to_multiset() == y.map_values(f).to_multiset(),
    decreases x.len(),
{
    broadcast use vstd::seq_lib::group_to_multiset_ensures;
    broadcast use vstd::multiset::group_multiset_axioms;

    if x.len() == 0 {
        assert(y.to_multiset().len() == 0);
        assert(y.len() == 0);
        assert(x.map_values(f) =~= y.map_values(f));
    } else {
        let n = x.len() - 1;
        let e = x[n];
        assert(x.contains(e));
        assert(y.to_multiset().count(e) > 0);
        assert(y.contains(e));
        let j = choose|j: int| 0 <= j < y.len() && y[j] == e;
        assert(x.remove(n).to_multiset() == x.to_multiset().remove(e));
        assert(y.remove(j).to_multiset() == y.to_multiset().remove(e));
        lemma_map_to_multiset(x.remove(n), y.remove(j), f);
        let mx = x.map_values(f);
        let my = y.map_values(f);
        assert(mx.remove(n) =~= x.remove(n).map_values(f));
        assert(my.remove(j) =~= y.remove(j).map_values(f));
        assert(mx.remove(n).to_multiset() == mx.to_multiset().remove(mx[n]));
        assert(my.remove(j).to_multiset() == my.to_multiset().remove(my[j]));
        assert(mx[n] == f(e) && my[j] == f(e));
        assert(mx.contains(f(e)) && my.contains(f(e)));
        assert(mx.to_multiset().count(f(e)) > 0 && my.to_multiset().count(f(e)) > 0);
        assert forall|m: u64| mx.to_multiset().count(m) == my.to_multiset().count(m) by {
            assert(mx.to_multiset().remove(f(e)).count(m) == my.to_multiset().remove(f(e)).count(
                m,
            ));
        }
        assert(mx.to_multiset() =~= my.to_multiset());
    }
}

/// The reduction is linear: scaling every sample by a constant `k` scales
/// the sorted rearrangement entry by entry, hence the sum (and with it the
/// mean) and the percentile entry at any index, by the same `k`.
pub proof fn lemma_reduction_linear(s: Seq<u64>, t: Seq<u64>, k: u64)
    requires
        t.len() == s.len(),
        forall|i: int| 0 <= i < s.len() ==> t[i] == k * s[i],
    ensures
        spec_sum(t) == k * spec_sum(s),
        forall|i: int|
            0 <= i < s.len() ==> #[trigger] spec_sorted(t)[i] == k * spec_sorted(s)[i],
{
    lemma_sum_scales(s, t, k);
    lemma_cycle_le_total();
    let f = |x: u64| (k * x) as u64;
    s.lemma_sort_by_ensures(cycle_le());
    t.lemma_sort_by_ensures(cycle_le());
    broadcast use vstd::seq_lib::group_to_multiset_ensures;

    let ss = spec_sorted(s);
    assert(ss.to_multiset() == s.to_multiset());
    assert(ss.to_multiset().len() == ss.len() && s.to_multiset().len() == s.len());
    assert(ss.len() == s.len());
    assert(spec_sorted(t).to_multiset().len() == spec_sorted(t).len());
    assert(spec_sorted(t).len() == t.len());
    // every element of the sorted rearrangement is an element of s, so the
    // scaled value fits in u64
    assert forall|i: int| 0 <= i < ss.len() implies exists|j: int|
        0 <= j < s.len() && s[j] == #[trigger] ss[i] by {
        assert(ss.contains(ss[i]));
        assert(ss.to_multiset().count(ss[i]) > 0);
        assert(s.to_multiset().count(ss[i]) > 0);
        assert(s.contains(ss[i]));
    }
    let u = ss.map_values(f);
    assert(sorted_by(u, cycle_le())) by {
        assert forall|a: int, b: int| 0 <= a < b < u.len() implies #[trigger] cycle_le()(
            u[a],
            u[b],
        ) by {
            assert(cycle_le()(ss[a], ss[b]));
            let ja = choose|j: int| 0 <= j < s.len() && s[j] == ss[a];
            let jb = choose|j: int| 0 <= j < s.len() && s[j] == ss[b];
            assert(t[ja] == k * ss[a] && t[jb] == k * ss[b]);
            assert(k * ss[a] <= k * ss[b]) by (nonlinear_arith)
                requires
                    ss[a] <= ss[b],
                    k >= 0,
            ;
        }
    }
    assert(t =~= s.map_values(f)) by {
        assert forall|i: int| 0 <= i < t.len() implies t[i] == s.map_values(f)[i] by {
            assert(t[i] == k * s[i]);
        }
    }
    lemma_map_to_multiset(ss, s, f);
    assert(u.to_multiset() == t.to_multiset());
    lemma_sorted_unique(u, spec_sorted(t), cycle_le());
    assert forall|i: int| 0 <= i < s.len() implies #[trigger] spec_sorted(t)[i] == k * spec_sorted(
        s,
    )[i] by {
        assert(ss.contains(ss[i]));
        assert(ss.to_multiset().count(ss[i]) > 0);
        assert(s.to_multiset().count(ss[i]) > 0);
        assert(s.contains(ss[i]));
        let ja = choose|j: int| 0 <= j < s.len() && #[trigger] s[j] == ss[i];
        assert(t[ja] == k * ss[i]);
        assert(spec_sorted(t)[i] == u[i]);
        assert(u[i] == f(ss[i]));
    }
}

} // verus!
