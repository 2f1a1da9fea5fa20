//! Timings of encoding and decoding, and what is reported of them.

use vstd::multiset::Multiset;
use vstd::prelude::*;
use vstd::relations::sorted_by;
use vstd::seq_lib::{lemma_fold_left_permutation, lemma_sorted_unique};

verus! {

/// The order in which samples are ranked.
pub open spec fn ascending() -> spec_fn(u64, u64) -> bool {
    |a: u64, b: u64| a <= b
}

/// The samples from the smallest to the largest.
pub open spec fn ranked(samples: Seq<u64>) -> Seq<u64> {
    samples.sort_by(ascending())
}

/// One step of a sum.
pub open spec fn plus() -> spec_fn(nat, u64) -> nat {
    |sum: nat, x: u64| sum + x as nat
}

/// The sum of the samples.
pub open spec fn total(samples: Seq<u64>) -> nat {
    samples.fold_left(0nat, plus())
}

/// Collects per-packet serialization and deserialization timings, in nanoseconds.
pub struct SerdeMetrics {
    samples: Vec<u64>,
}

/// What a collection of timings comes to. The mean is `sum_ns` over `count`.
#[derive(Clone, Copy, Debug, PartialEq, Eq, Structural)]
pub struct SerdeStats {
    pub count: usize,
    pub median_ns: u64,
    pub min_ns: u64,
    pub max_ns: u64,
    pub sum_ns: u128,
}

/// The stats of `samples`: all zero where there are none.
pub open spec fn stats_of(samples: Seq<u64>) -> SerdeStats {
    let n = samples.len();
    if n == 0 {
        SerdeStats { count: 0, median_ns: 0, min_ns: 0, max_ns: 0, sum_ns: 0 }
    } else {
        SerdeStats {
            count: n as usize,
            median_ns: ranked(samples)[n as int / 2],
            min_ns: ranked(samples)[0],
            max_ns: ranked(samples)[n - 1],
            sum_ns: total(samples) as u128,
        }
    }
}

/// `after` is `before` with one more sample behind it.
pub open spec fn one_more(before: Seq<u64>, after: Seq<u64>) -> bool {
    after.len() == before.len() + 1 && after.drop_last() =~= before
}

/// Calls `slice::sort_unstable`: the samples are put in ascending order, and
/// each value occurs as often as before.
#[verifier::external_body]
fn sort_samples(samples: &mut Vec<u64>)
    ensures
        final(samples)@.to_multiset() == old(samples)@.to_multiset(),
        forall|i: int, j: int|
            0 <= i <= j < final(samples)@.len() ==> final(samples)@[i] <= final(samples)@[j],
{
    samples.sort_unstable();
}

proof fn lemma_ascending_total_order()
    ensures
        vstd::relations::total_ordering(ascending()),
{
}

/// A sequence in ascending order with the same values is the ranking.
proof fn lemma_ranked_unique(samples: Seq<u64>, sorted: Seq<u64>)
    requires
        sorted.to_multiset() == samples.to_multiset(),
        forall|i: int, j: int| 0 <= i <= j < sorted.len() ==> sorted[i] <= sorted[j],
    ensures
        sorted == ranked(samples),
{
    lemma_ascending_total_order();
    samples.lemma_sort_by_ensures(ascending());
    assert(sorted_by(sorted, ascending()));
    lemma_sorted_unique(sorted, ranked(samples), ascending());
}

/// Facts about the ranking: it has the same values, in ascending order.
proof fn lemma_ranked(samples: Seq<u64>)
    ensures
        ranked(samples).len() == samples.len(),
        ranked(samples).to_multiset() == samples.to_multiset(),
        forall|i: int, j: int|
            0 <= i <= j < samples.len() ==> ranked(samples)[i] <= ranked(samples)[j],
{
    broadcast use vstd::seq_lib::group_to_multiset_ensures;

    lemma_ascending_total_order();
    samples.lemma_sort_by_ensures(ascending());
    let sorted = ranked(samples);
    assert(sorted.to_multiset().len() == samples.to_multiset().len());
    assert forall|i: int, j: int| 0 <= i <= j < samples.len() implies sorted[i] <= sorted[j] by {
        if i < j {
            assert(ascending()(sorted[i], sorted[j]));
        }
    }
}

proof fn lemma_total_bound(samples: Seq<u64>, low: u64, high: u64)
    requires
        forall|i: int| 0 <= i < samples.len() ==> low <= #[trigger] samples[i] && samples[i] <= high,
    ensures
        low * samples.len() <= total(samples) <= high * samples.len(),
    decreases samples.len(),
{
    if samples.len() > 0 {
        let rest = samples.drop_last();
        assert forall|i: int| 0 <= i < rest.len() implies low <= #[trigger] rest[i] && rest[i] <= high by {
            assert(rest[i] == samples[i]);
        }
        lemma_total_bound(rest, low, high);
        let n: int = rest.len() as int;
        assert(low * (n + 1) == low * n + low) by (nonlinear_arith);
        assert(high * (n + 1) == high * n + high) by (nonlinear_arith);
    } else {
        assert(low * 0 == 0 && high * 0 == 0);
    }
}

impl SerdeMetrics {
    /// The timings recorded so far, in the order in which they came.
    pub closed spec fn view(&self) -> Seq<u64> {
        self.samples@
    }

    /// No timings yet.
    pub fn new() -> (metrics: Self)
        ensures
            metrics@ == Seq::<u64>::empty(),
    {
        SerdeMetrics { samples: Vec::new() }
    }

    /// Adds one timing.
    pub fn record(&mut self, duration_ns: u64)
        ensures
            final(self)@ == old(self)@.push(duration_ns),
    {
        self.samples.push(duration_ns);
    }

    /// Adds the timings that another collector gathered, behind those held already.
    pub fn append(&mut self, other: SerdeMetrics)
        ensures
            final(self)@ == old(self)@ + other@,
    {
        let mut samples = other.samples;
        self.samples.append(&mut samples);
    }

    /// The number, median, extremes and sum of the timings recorded so far.
    pub fn stats(&self) -> (stats: SerdeStats)
        ensures
            stats == stats_of(self@),
    {
        let mut sorted: Vec<u64> = self.samples.clone();
        assert(sorted@ =~= self.samples@);
        if sorted.len() == 0 {
            return SerdeStats { count: 0, median_ns: 0, min_ns: 0, max_ns: 0, sum_ns: 0 };
        }
        sort_samples(&mut sorted);
        proof {
            lemma_ranked_unique(self@, sorted@);
            lemma_ranked(self@);
        }
        let count: usize = sorted.len();
        let mut sum_ns: u128 = 0;
        let mut i: usize = 0;
        while i < count
            invariant
                i <= count,
                count == self.samples@.len(),
                sum_ns == total(self.samples@.take(i as int)),
                sum_ns <= i * 0xffff_ffff_ffff_ffff,
            decreases count - i,
        {
            let ghost before = self.samples@.take(i as int);
            assert(self.samples@.take(i + 1).drop_last() =~= before);
            assert(i * 0xffff_ffff_ffff_ffff + 0xffff_ffff_ffff_ffff <= u128::MAX);
            sum_ns = sum_ns + self.samples[i] as u128;
            i = i + 1;
        }
        assert(self.samples@.take(count as int) =~= self.samples@);
        SerdeStats {
            count,
            median_ns: sorted[count / 2],
            min_ns: sorted[0],
            max_ns: sorted[count - 1],
            sum_ns,
        }
    }
}

impl Default for SerdeMetrics {
    fn default() -> (metrics: Self)
        ensures
            metrics@ == Seq::<u64>::empty(),
    {
        SerdeMetrics::new()
    }
}

/// The stats do not depend on the order in which timings were recorded, so
/// tasks that share a collector may record in any interleaving.
pub proof fn law_stats_ignore_order(a: Seq<u64>, b: Seq<u64>)
    requires
        a.to_multiset() == b.to_multiset(),
    ensures
        stats_of(a) == stats_of(b),
{
    broadcast use vstd::seq_lib::group_to_multiset_ensures;

    lemma_ranked(a);
    lemma_ranked(b);
    lemma_ranked_unique(a, ranked(b));
    assert(a.to_multiset().len() == b.to_multiset().len());
    assert(vstd::seq_lib::commutative_foldl(plus()));
    lemma_fold_left_permutation(a, b, plus(), 0nat);
}

/// The smallest timing is at most the median, which is at most the largest, and
/// the mean lies between the smallest and the largest.
pub proof fn law_stats_ordered(samples: Seq<u64>)
    requires
        0 < samples.len() <= usize::MAX,
    ensures
        stats_of(samples).min_ns <= stats_of(samples).median_ns <= stats_of(samples).max_ns,
        stats_of(samples).min_ns * stats_of(samples).count <= stats_of(samples).sum_ns,
        stats_of(samples).sum_ns <= stats_of(samples).max_ns * stats_of(samples).count,
{
    broadcast use vstd::seq_lib::group_to_multiset_ensures;

    lemma_ranked(samples);
    let sorted = ranked(samples);
    let n = samples.len();
    let low = sorted[0];
    let high = sorted[n - 1];
    assert forall|i: int| 0 <= i < n implies low <= #[trigger] samples[i] && samples[i] <= high by {
        assert(samples.to_multiset().count(samples[i]) > 0);
        assert(sorted.contains(samples[i]));
        let k = choose|k: int| 0 <= k < sorted.len() && sorted[k] == samples[i];
        assert(sorted[0] <= sorted[k] <= sorted[n - 1]);
    }
    lemma_total_bound(samples, low, high);
    assert(high * n <= 0xffff_ffff_ffff_ffff * 0xffff_ffff_ffff_ffff) by (nonlinear_arith)
        requires
            high <= 0xffff_ffff_ffff_ffffu64,
            n <= 0xffff_ffff_ffff_ffff,
    ;
}

/// Every timing recorded lies between the reported extremes, and both extremes
/// and the median were recorded.
pub proof fn law_stats_extremes(samples: Seq<u64>)
    requires
        samples.len() > 0,
    ensures
        samples.contains(stats_of(samples).min_ns),
        samples.contains(stats_of(samples).median_ns),
        samples.contains(stats_of(samples).max_ns),
        forall|i: int|
            0 <= i < samples.len() ==> stats_of(samples).min_ns <= #[trigger] samples[i]
                && samples[i] <= stats_of(samples).max_ns,
{
    broadcast use vstd::seq_lib::group_to_multiset_ensures;

    lemma_ranked(samples);
    let sorted = ranked(samples);
    let n = samples.len();
    assert forall|k: int| 0 <= k < n implies samples.contains(#[trigger] sorted[k]) by {
        assert(sorted.to_multiset().count(sorted[k]) > 0);
        assert(samples.to_multiset().count(sorted[k]) > 0);
    }
    assert forall|i: int| 0 <= i < n implies sorted[0] <= #[trigger] samples[i] && samples[i]
        <= sorted[n - 1] by {
        assert(samples.to_multiset().count(samples[i]) > 0);
        assert(sorted.contains(samples[i]));
        let k = choose|k: int| 0 <= k < sorted.len() && sorted[k] == samples[i];
        assert(sorted[0] <= sorted[k] <= sorted[n - 1]);
    }
}

proof fn lemma_filter_in_multiset(samples: Seq<u64>, p: spec_fn(u64) -> bool)
    ensures
        samples.filter(p).len() == samples.to_multiset().filter(p).len(),
    decreases samples.len(),
{
    broadcast use vstd::seq_lib::group_to_multiset_ensures;

    reveal(Seq::filter);
    if samples.len() > 0 {
        let rest = samples.drop_last();
        let last = samples.last();
        lemma_filter_in_multiset(rest, p);
        assert(samples =~= rest.push(last));
        assert(samples.to_multiset() =~= rest.to_multiset().insert(last));
        if p(last) {
            assert(samples.to_multiset().filter(p) =~= rest.to_multiset().filter(p).insert(last));
        } else {
            assert(samples.to_multiset().filter(p) =~= rest.to_multiset().filter(p));
        }
    } else {
        assert(samples.to_multiset() =~= Multiset::empty());
        assert(samples.to_multiset().filter(p) =~= Multiset::empty());
    }
}

/// Where only items between two positions can be among those picked, no more are.
proof fn lemma_picked_between(items: Seq<u64>, p: spec_fn(u64) -> bool, from: int, to: int)
    requires
        0 <= from <= to <= items.len(),
        forall|i: int| 0 <= i < items.len() && p(#[trigger] items[i]) ==> from <= i < to,
    ensures
        items.filter(p).len() <= to - from,
{
    let low = items.take(from);
    let middle = items.subrange(from, to);
    let high = items.skip(to);
    assert(items =~= low + middle + high);
    Seq::filter_distributes_over_add(low + middle, high, p);
    Seq::filter_distributes_over_add(low, middle, p);
    assert forall|i: int| 0 <= i < low.len() implies !p(#[trigger] low[i]) by {
        assert(low[i] == items[i]);
    }
    assert forall|i: int| 0 <= i < high.len() implies !p(#[trigger] high[i]) by {
        assert(high[i] == items[i + to]);
    }
    low.lemma_all_neg_filter_empty(p);
    high.lemma_all_neg_filter_empty(p);
    middle.lemma_filter_len(p);
}

/// The median is in the middle: of `n` timings at most `n / 2` are below it, and at most
/// `n - n / 2 - 1` above.
pub proof fn law_median_is_in_the_middle(samples: Seq<u64>)
    requires
        samples.len() > 0,
    ensures
        samples.filter(|x: u64| x < stats_of(samples).median_ns).len() <= samples.len() / 2,
        samples.filter(|x: u64| x > stats_of(samples).median_ns).len() <= samples.len()
            - samples.len() / 2 - 1,
{
    lemma_ranked(samples);
    let n = samples.len() as int;
    let sorted = ranked(samples);
    let median = stats_of(samples).median_ns;
    let below = |x: u64| x < median;
    let above = |x: u64| x > median;
    lemma_picked_between(sorted, below, 0, n / 2);
    lemma_picked_between(sorted, above, n / 2 + 1, n);
    lemma_filter_in_multiset(samples, below);
    lemma_filter_in_multiset(samples, above);
    lemma_filter_in_multiset(sorted, below);
    lemma_filter_in_multiset(sorted, above);
}

proof fn lemma_total_limit(samples: Seq<u64>)
    ensures
        total(samples) <= samples.len() * 0xffff_ffff_ffff_ffff,
    decreases samples.len(),
{
    if samples.len() > 0 {
        lemma_total_limit(samples.drop_last());
    }
}

/// One timing more counts once and adds itself to the sum; without timings both are zero.
pub proof fn law_each_timing_adds_itself(samples: Seq<u64>, duration_ns: u64)
    requires
        samples.len() < usize::MAX,
    ensures
        stats_of(Seq::empty()).count == 0,
        stats_of(Seq::empty()).sum_ns == 0,
        stats_of(samples.push(duration_ns)).count == stats_of(samples).count + 1,
        stats_of(samples.push(duration_ns)).sum_ns == stats_of(samples).sum_ns + duration_ns,
{
    let more = samples.push(duration_ns);
    assert(more.drop_last() =~= samples);
    lemma_total_limit(more);
    lemma_total_limit(samples);
    assert(more.len() * 0xffff_ffff_ffff_ffff <= 0xffff_ffff_ffff_ffff * 0xffff_ffff_ffff_ffff)
        by (nonlinear_arith)
        requires
            more.len() <= 0xffff_ffff_ffff_ffff,
    ;
}

/// One sample more keeps those before it, in their order.
pub proof fn law_one_more_keeps_the_others(before: Seq<u64>, after: Seq<u64>)
    requires
        one_more(before, after),
    ensures
        after == before.push(after.last()),
{
    assert(after =~= before.push(after.last()));
}

} // verus!
