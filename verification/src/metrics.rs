//! Latency histogram and byte counter of one transport.

use hdrhistogram::{CreationError, Histogram, RecordError};
use vstd::multiset::Multiset;
use vstd::prelude::*;

verus! {

/// The lowest latency the histogram tells apart from zero, in nanoseconds.
pub const LOWEST_LATENCY_NS: u64 = 1;

/// The highest latency the histogram is asked to track: one minute, in nanoseconds.
pub const HIGHEST_LATENCY_NS: u64 = 60_000_000_000;

/// The significant decimal digits the histogram keeps.
pub const LATENCY_DIGITS: u8 = 3;

/// The first latency the histogram has no slot for: the power of two above
/// [`HIGHEST_LATENCY_NS`].
pub const UNTRACKED_LATENCY_NS: u64 = 0x10_0000_0000;

/// The width of the slot that counts `v`: single values below 2048, and twice as
/// wide with each further power of two.
pub open spec fn slot_width(v: nat) -> nat
    decreases v,
{
    if v < 2048 {
        1
    } else {
        2 * slot_width(v / 2)
    }
}

/// The lowest value counted in the same slot as `v`.
pub open spec fn slot_floor(v: u64) -> u64 {
    (v as nat - v as nat % slot_width(v as nat)) as u64
}

/// The highest value counted in the same slot as `v`.
pub open spec fn slot_ceiling(v: u64) -> u64 {
    (slot_floor(v) + slot_width(v as nat) - 1) as u64
}

/// A histogram of `hdrhistogram` over latencies.
#[verifier::external_body]
pub struct LatencyHistogram {
    inner: Histogram<u64>,
}

/// Why a histogram of `hdrhistogram` could not be made.
#[verifier::external_type_specification]
#[verifier::external_body]
pub struct ExCreationError(CreationError);

/// Why a value could not be recorded in a histogram of `hdrhistogram`.
#[verifier::external_type_specification]
#[verifier::external_body]
pub struct ExRecordError(RecordError);

/// What the histogram holds: each recorded value, taken as the floor of its slot,
/// as often as the slot's counter says.
pub uninterp spec fn histogram_floors(histogram: LatencyHistogram) -> Multiset<u64>;

/// The lowest and highest value and the digits that the histogram was made with.
pub uninterp spec fn histogram_limits(histogram: LatencyHistogram) -> (u64, u64, u8);

/// The limits every collector's histogram is made with.
pub open spec fn latency_limits() -> (u64, u64, u8) {
    (LOWEST_LATENCY_NS, HIGHEST_LATENCY_NS, LATENCY_DIGITS)
}

/// What a histogram with the limits of [`latency_limits`] holds after `ns` was
/// offered to it: one more count in the slot of `ns`, unless there is no such slot
/// or its counter is at its end.
pub open spec fn offered(floors: Multiset<u64>, ns: u64) -> Multiset<u64> {
    if ns < UNTRACKED_LATENCY_NS && floors.count(slot_floor(ns)) < u64::MAX {
        floors.insert(slot_floor(ns))
    } else {
        floors
    }
}

/// What the histogram holds after `ns` was offered to it `n` times.
pub open spec fn offered_times(floors: Multiset<u64>, ns: u64, n: nat) -> Multiset<u64>
    decreases n,
{
    if n == 0 {
        floors
    } else {
        offered(offered_times(floors, ns, (n - 1) as nat), ns)
    }
}

/// Calls `Histogram::new_with_bounds`: with a lowest value of 1, a highest value of
/// at least 2 and at most five digits it succeeds, and the histogram is empty and
/// has the limits asked for.
#[verifier::external_body]
fn histogram_new(low: u64, high: u64, digits: u8) -> (made: Result<LatencyHistogram, CreationError>)
    ensures
        low == 1 && high >= 2 && digits <= 5 ==> made is Ok,
        made matches Ok(h) ==> histogram_limits(h) == (low, high, digits),
        made matches Ok(h) ==> histogram_floors(h) == Multiset::<u64>::empty(),
{
    match Histogram::new_with_bounds(low, high, digits) {
        Ok(inner) => Ok(LatencyHistogram { inner }),
        Err(e) => Err(e),
    }
}

/// Calls `Histogram::record` on a histogram with the limits of [`latency_limits`]:
/// it fails exactly on the values it has no slot for and then changes nothing; else
/// it counts the value in its slot, by a counter that stops at its end.
#[verifier::external_body]
fn histogram_record(histogram: &mut LatencyHistogram, ns: u64) -> (done: Result<(), RecordError>)
    requires
        histogram_limits(*old(histogram)) == latency_limits(),
    ensures
        done is Ok <==> ns < UNTRACKED_LATENCY_NS,
        histogram_limits(*final(histogram)) == histogram_limits(*old(histogram)),
        histogram_floors(*final(histogram)) == offered(histogram_floors(*old(histogram)), ns),
{
    histogram.inner.record(ns)
}

/// Calls `Histogram::len`: the number of values held, as far as a `u64` can count.
#[verifier::external_body]
fn histogram_len(histogram: &LatencyHistogram) -> (len: u64)
    ensures
        len == if histogram_floors(*histogram).len() < u64::MAX {
            histogram_floors(*histogram).len()
        } else {
            u64::MAX as nat
        },
{
    histogram.inner.len()
}

/// Calls `Histogram::min`: the lowest slot floor held, or zero where none is.
#[verifier::external_body]
fn histogram_min(histogram: &LatencyHistogram) -> (min: u64)
    ensures
        is_lowest(histogram_floors(*histogram), min),
{
    histogram.inner.min()
}

/// Calls `Histogram::max` on a histogram with the limits of [`latency_limits`]: the
/// top of the highest slot held, or zero where none is.
#[verifier::external_body]
fn histogram_max(histogram: &LatencyHistogram) -> (max: u64)
    requires
        histogram_limits(*histogram) == latency_limits(),
    ensures
        is_highest_ceiling(histogram_floors(*histogram), max),
{
    histogram.inner.max()
}

/// Calls `Histogram::value_at_percentile` on a histogram with the limits of
/// [`latency_limits`], for one of the percentages 50, 90 and 99: the top of the slot in
/// which the value of the rank lies that is this percentage of the number of values held,
/// or zero where nothing is held. The rank is computed in binary fractions. Those nearest
/// to the three percentages are so close that below [`EXACT_RANKS`] values the rank comes
/// out as the percentage rounded up; with more values it may be off by a little.
#[verifier::external_body]
fn histogram_percentile(histogram: &LatencyHistogram, percent: u8) -> (value: u64)
    requires
        histogram_limits(*histogram) == latency_limits(),
        histogram_floors(*histogram).len() < u64::MAX,
        percent == 50 || percent == 90 || percent == 99,
    ensures
        is_percentile(histogram_floors(*histogram), percent, value),
{
    histogram.inner.value_at_percentile(percent.into())
}

/// The bits of the number that `Histogram::mean` computes in binary floating point
/// for a histogram with the limits of [`latency_limits`] that holds `floors`.
pub uninterp spec fn mean_bits_of(floors: Multiset<u64>) -> u64;

/// Calls `Histogram::mean` on a histogram with the limits of [`latency_limits`]: the
/// bits of a floating-point number that depends on what is held alone, and is zero
/// where nothing is. How far it is from the mean of the values is left unsaid.
/// Histograms with more values than a `u64` can count are left out.
#[verifier::external_body]
fn histogram_mean(histogram: &LatencyHistogram) -> (bits: u64)
    requires
        histogram_limits(*histogram) == latency_limits(),
        histogram_floors(*histogram).len() < u64::MAX,
    ensures
        bits == mean_bits_of(histogram_floors(*histogram)),
        histogram_floors(*histogram).len() == 0 ==> bits == 0,
{
    histogram.inner.mean().to_bits()
}

/// Up to how many values a percentile's rank is computed without loss: fractions of a
/// hundredth are still told apart.
pub const EXACT_RANKS: u64 = 0x2000_0000_0000;

/// How many of `floors` lie below `f`.
pub open spec fn count_below(floors: Multiset<u64>, f: u64) -> nat {
    floors.filter(|x: u64| x < f).len()
}

/// `f` is the value of the given rank among `floors`, counting from one.
pub open spec fn has_rank(floors: Multiset<u64>, f: u64, rank: nat) -> bool {
    count_below(floors, f) < rank <= count_below(floors, f) + floors.count(f)
}

/// `rank` is `percent` percent of `n`, rounded up; from [`EXACT_RANKS`] on it is that
/// percentage to within a share of `n` of less than one in 10^13.
pub open spec fn is_percent_rank(percent: u8, n: nat, rank: nat) -> bool {
    if n < EXACT_RANKS {
        100 * (rank - 1) < percent * n <= 100 * rank
    } else {
        &&& (100 * rank - percent * n) * 0x40_0000_0000 <= n
        &&& (percent * n - 100 * rank) * 0x40_0000_0000 <= n
    }
}

/// `value` is the top of the slot that holds the value at the given percentage of
/// the ranks, or zero where there are no values.
pub open spec fn is_percentile(floors: Multiset<u64>, percent: u8, value: u64) -> bool {
    if floors.len() == 0 {
        value == 0
    } else {
        exists|f: u64, rank: nat| #[trigger]
            has_rank(floors, f, rank) && is_percent_rank(percent, floors.len(), rank) && value
                == slot_ceiling(f)
    }
}

/// `min` is the lowest of `floors`, or zero where there are none.
pub open spec fn is_lowest(floors: Multiset<u64>, min: u64) -> bool {
    if floors.len() == 0 {
        min == 0
    } else {
        floors.contains(min) && forall|x: u64| #[trigger] floors.contains(x) ==> min <= x
    }
}

/// `max` is the top of the slot of the highest of `floors`, or zero where there are none.
pub open spec fn is_highest_ceiling(floors: Multiset<u64>, max: u64) -> bool {
    if floors.len() == 0 {
        max == 0
    } else {
        exists|top: u64| #[trigger]
            floors.contains(top) && max == slot_ceiling(top) && forall|x: u64| #[trigger]
                floors.contains(x) ==> x <= top
    }
}

/// All of `floors` lie below the first latency that is not tracked.
pub open spec fn all_tracked(floors: Multiset<u64>) -> bool {
    forall|x: u64| #[trigger] floors.contains(x) ==> x < UNTRACKED_LATENCY_NS
}

/// Latencies and bytes of one transport.
pub struct MetricsCollector {
    histogram: LatencyHistogram,
    total_bytes: u64,
}

impl MetricsCollector {
    /// The histogram has the limits that every collector starts with, and holds nothing
    /// beyond them.
    pub closed spec fn wf(&self) -> bool {
        histogram_limits(self.histogram) == latency_limits() && all_tracked(self.floors())
    }

    /// What a collector holds is tracked.
    pub proof fn lemma_wf_tracked(&self)
        requires
            self.wf(),
        ensures
            all_tracked(self.floors()),
    {
    }

    /// The latencies held, each taken as the floor of its slot.
    pub closed spec fn floors(&self) -> Multiset<u64> {
        histogram_floors(self.histogram)
    }

    /// The bytes counted so far.
    pub closed spec fn bytes(&self) -> u64 {
        self.total_bytes
    }

    /// No latencies and no bytes.
    pub fn new() -> (metrics: Self)
        ensures
            metrics.wf(),
            metrics.floors() == Multiset::<u64>::empty(),
            metrics.bytes() == 0,
    {
        let made = histogram_new(LOWEST_LATENCY_NS, HIGHEST_LATENCY_NS, LATENCY_DIGITS);
        MetricsCollector { histogram: made.unwrap(), total_bytes: 0 }
    }

    /// Counts one latency. A latency beyond what the histogram tracks is left out.
    pub fn record_latency_ns(&mut self, ns: u64)
        requires
            old(self).wf(),
        ensures
            final(self).wf(),
            final(self).floors() == offered(old(self).floors(), ns),
            final(self).bytes() == old(self).bytes(),
    {
        proof {
            lemma_offered_tracked(self.floors(), ns);
        }
        let _ = histogram_record(&mut self.histogram, ns);
    }

    /// Counts one latency `n` times.
    pub fn record_latency_times(&mut self, ns: u64, n: usize)
        requires
            old(self).wf(),
        ensures
            final(self).wf(),
            final(self).floors() == offered_times(old(self).floors(), ns, n as nat),
            final(self).bytes() == old(self).bytes(),
    {
        let mut i: usize = 0;
        while i < n
            invariant
                i <= n,
                self.wf(),
                self.floors() == offered_times(old(self).floors(), ns, i as nat),
                self.bytes() == old(self).bytes(),
            decreases n - i,
        {
            self.record_latency_ns(ns);
            i = i + 1;
        }
    }

    /// Counts bytes that were sent.
    pub fn add_bytes(&mut self, bytes: u64)
        requires
            old(self).bytes() + bytes <= u64::MAX,
        ensures
            final(self).bytes() == old(self).bytes() + bytes,
            final(self).floors() == old(self).floors(),
            final(self).wf() == old(self).wf(),
    {
        self.total_bytes = self.total_bytes + bytes;
    }

    /// The latency that half of those held do not exceed, to the histogram's resolution.
    pub fn p50_ns(&self) -> (value: u64)
        requires
            self.wf(),
            self.floors().len() < u64::MAX,
        ensures
            is_percentile(self.floors(), 50, value),
    {
        histogram_percentile(&self.histogram, 50)
    }

    /// The latency that 90% of those held do not exceed, to the histogram's resolution.
    pub fn p90_ns(&self) -> (value: u64)
        requires
            self.wf(),
            self.floors().len() < u64::MAX,
        ensures
            is_percentile(self.floors(), 90, value),
    {
        histogram_percentile(&self.histogram, 90)
    }

    /// The latency that 99% of those held do not exceed, to the histogram's resolution.
    pub fn p99_ns(&self) -> (value: u64)
        requires
            self.wf(),
            self.floors().len() < u64::MAX,
        ensures
            is_percentile(self.floors(), 99, value),
    {
        histogram_percentile(&self.histogram, 99)
    }

    /// The bits of the mean latency as a double-precision number of nanoseconds.
    pub fn mean_bits(&self) -> (bits: u64)
        requires
            self.wf(),
            self.floors().len() < u64::MAX,
        ensures
            bits == mean_bits_of(self.floors()),
            self.floors().len() == 0 ==> bits == 0,
    {
        histogram_mean(&self.histogram)
    }

    /// The lowest latency held, to the histogram's resolution; zero where there is none.
    pub fn min_ns(&self) -> (min: u64)
        ensures
            is_lowest(self.floors(), min),
    {
        histogram_min(&self.histogram)
    }

    /// The highest latency held, to the histogram's resolution; zero where there is none.
    pub fn max_ns(&self) -> (max: u64)
        requires
            self.wf(),
        ensures
            is_highest_ceiling(self.floors(), max),
    {
        histogram_max(&self.histogram)
    }

    /// The number of latencies held, as far as a `u64` can count.
    pub fn count(&self) -> (count: u64)
        ensures
            count == if self.floors().len() < u64::MAX {
                self.floors().len()
            } else {
                u64::MAX as nat
            },
    {
        histogram_len(&self.histogram)
    }

    /// The bytes counted so far.
    pub fn total_bytes(&self) -> (bytes: u64)
        ensures
            bytes == self.bytes(),
    {
        self.total_bytes
    }
}

impl Default for MetricsCollector {
    fn default() -> (metrics: Self)
        ensures
            metrics.wf(),
            metrics.floors() == Multiset::<u64>::empty(),
            metrics.bytes() == 0,
    {
        MetricsCollector::new()
    }
}

/// A latency lies in its slot, and the slot is narrower than a thousandth of it.
pub proof fn law_slot_resolution(v: u64)
    requires
        v < UNTRACKED_LATENCY_NS,
    ensures
        slot_floor(v) <= v <= slot_ceiling(v),
        (slot_ceiling(v) - slot_floor(v)) * 1000 <= v,
        v < 2048 ==> slot_floor(v) == v && slot_ceiling(v) == v,
{
    lemma_slot_width(v as nat);
    let w = slot_width(v as nat);
    let n = v as nat;
    assert(n - n % w + w - 1 >= n && n % w <= n && n % w < w) by (nonlinear_arith)
        requires
            w > 0,
    ;
    assert(n - n % w + w - 1 <= 2 * n + 1);
}

proof fn lemma_slot_width(v: nat)
    ensures
        1 <= slot_width(v),
        v < 2048 ==> slot_width(v) == 1,
        v >= 2048 ==> slot_width(v) * 1024 <= v,
    decreases v,
{
    if v >= 2048 {
        lemma_slot_width(v / 2);
    }
}

/// The floor of a slot is its own floor, so recording a floor again counts in the
/// same slot.
pub proof fn law_slot_floor_stable(v: u64)
    ensures
        slot_floor(slot_floor(v)) == slot_floor(v),
        slot_ceiling(slot_floor(v)) == slot_ceiling(v),
{
    let n = v as nat;
    let w = slot_width(n);
    lemma_slot_width(n);
    lemma_floor_width(n);
    assert(0 <= n % w <= n) by (nonlinear_arith)
        requires
            w > 0,
    ;
}

proof fn lemma_floor_width(v: nat)
    ensures
        ({
            let floor = (v - v % slot_width(v)) as nat;
            slot_width(floor) == slot_width(v) && floor % slot_width(v) == 0 && (v >= 1024 ==> floor
                >= 1024)
        }),
    decreases v,
{
    if v >= 2048 {
        let h = v / 2;
        let w = slot_width(h);
        lemma_slot_width(h);
        lemma_floor_width(h);
        let half_floor = (h - h % w) as nat;
        let floor = (v - v % (2 * w)) as nat;
        lemma_mod_halves(v, w);
        assert(floor == 2 * half_floor);
        lemma_mod_halves(floor, w);
        assert(floor / 2 == half_floor);
    } else {
        assert(v % 1 == 0);
    }
}

/// Offering a latency that the histogram tracks counts it: one more value is held.
pub proof fn law_tracked_latency_counts(floors: Multiset<u64>, ns: u64)
    requires
        ns < UNTRACKED_LATENCY_NS,
        floors.count(slot_floor(ns)) < u64::MAX,
    ensures
        offered(floors, ns).len() == floors.len() + 1,
        offered(floors, ns).contains(slot_floor(ns)),
{
}

/// Offering a tracked latency `n` times to an empty histogram leaves `n` values, all
/// in its slot.
pub proof fn law_repeated_latency(ns: u64, n: nat)
    requires
        ns < UNTRACKED_LATENCY_NS,
        n <= u64::MAX,
    ensures
        offered_times(Multiset::empty(), ns, n).len() == n,
        offered_times(Multiset::empty(), ns, n).count(slot_floor(ns)) == n,
    decreases n,
{
    if n > 0 {
        law_repeated_latency(ns, (n - 1) as nat);
    }
}

proof fn lemma_offered_tracked(floors: Multiset<u64>, ns: u64)
    requires
        all_tracked(floors),
    ensures
        all_tracked(offered(floors, ns)),
{
    let floor = slot_floor(ns);
    if ns < UNTRACKED_LATENCY_NS {
        law_slot_resolution(ns);
    }
    assert forall|x: u64| #[trigger] offered(floors, ns).contains(x) implies x
        < UNTRACKED_LATENCY_NS by {
        assert(offered(floors, ns).count(x) > 0);
        if x != floor {
            assert(floors.contains(x));
        }
    }
}

/// The remainder by an even number follows from the remainder of the half.
proof fn lemma_mod_halves(v: nat, w: nat)
    requires
        w > 0,
    ensures
        v % (2 * w) == 2 * (v / 2 % w) + v % 2,
        v / 2 % w <= v / 2,
        v % (2 * w) <= v,
{
    let h = v as int / 2;
    let m = w as int;
    let q = h / m;
    let r = h % m;
    vstd::arithmetic::div_mod::lemma_fundamental_div_mod(h, m);
    assert(0 <= r < m && 0 <= q && 0 <= m * q) by (nonlinear_arith)
        requires
            m > 0,
            h >= 0,
            q == h / m,
            r == h % m,
    ;
    let rest = 2 * r + v as int % 2;
    assert(2 * (m * q) == q * (2 * m)) by (nonlinear_arith);
    vstd::arithmetic::div_mod::lemma_fundamental_div_mod_converse(v as int, 2 * m, q, rest);
}

/// The top of a wide slot follows from the top of the slot of half the value.
proof fn lemma_ceiling_halves(v: nat)
    requires
        2048 <= v < UNTRACKED_LATENCY_NS,
    ensures
        slot_ceiling(v as u64) == 2 * slot_ceiling((v / 2) as u64) + 1,
{
    let h = v / 2;
    let w = slot_width(h);
    lemma_slot_width(h);
    law_slot_resolution(v as u64);
    law_slot_resolution(h as u64);
    lemma_mod_halves(v, w);
}

/// A higher latency never lies in a lower slot.
pub proof fn law_slots_are_ordered(a: u64, b: u64)
    requires
        a <= b < UNTRACKED_LATENCY_NS,
    ensures
        slot_ceiling(a) <= slot_ceiling(b),
    decreases b,
{
    law_slot_resolution(a);
    law_slot_resolution(b);
    if a >= 2048 {
        lemma_ceiling_halves(a as nat);
        lemma_ceiling_halves(b as nat);
        law_slots_are_ordered(a / 2, b / 2);
    }
}

/// A value of a lower rank is not above one of a higher rank.
proof fn lemma_ranks_ordered(floors: Multiset<u64>, a: u64, a_rank: nat, b: u64, b_rank: nat)
    requires
        has_rank(floors, a, a_rank),
        has_rank(floors, b, b_rank),
        a_rank <= b_rank,
    ensures
        a <= b,
        floors.contains(a),
{
    if b < a {
        let below_a = floors.filter(|x: u64| x < a);
        let below_b = floors.filter(|x: u64| x < b);
        let between = below_a.sub(below_b);
        assert(below_b.subset_of(below_a));
        assert(between.count(b) == floors.count(b));
        assert(between.len() == below_a.len() - below_b.len());
        assert(between.count(b) <= between.len());
    }
}

/// Percentiles of a higher percentage are not below those of a lower one.
proof fn lemma_percentiles_ordered(floors: Multiset<u64>, p: u8, p_ns: u64, q: u8, q_ns: u64)
    requires
        all_tracked(floors),
        (p == 50 && q == 90) || (p == 90 && q == 99),
        is_percentile(floors, p, p_ns),
        is_percentile(floors, q, q_ns),
    ensures
        p_ns <= q_ns,
{
    let n = floors.len();
    if n > 0 {
        let (a, a_rank) = choose|f: u64, rank: nat| #[trigger]
            has_rank(floors, f, rank) && is_percent_rank(p, n, rank) && p_ns == slot_ceiling(f);
        let (b, b_rank) = choose|f: u64, rank: nat| #[trigger]
            has_rank(floors, f, rank) && is_percent_rank(q, n, rank) && q_ns == slot_ceiling(f);
        assert(q * n >= p * n + 9 * n) by (nonlinear_arith)
            requires
                q >= p + 9,
                n >= 0,
        ;
        assert(a_rank <= b_rank);
        lemma_ranks_ordered(floors, a, a_rank, b, b_rank);
        lemma_ranks_ordered(floors, b, b_rank, b, b_rank);
        law_slots_are_ordered(a, b);
    }
}

/// The latencies that a collector reports ascend from the lowest over the percentiles to
/// the highest, and all are zero where it holds none.
pub proof fn law_reported_latencies_ascend(
    floors: Multiset<u64>,
    min: u64,
    p50: u64,
    p90: u64,
    p99: u64,
    max: u64,
)
    requires
        all_tracked(floors),
        is_lowest(floors, min),
        is_percentile(floors, 50, p50),
        is_percentile(floors, 90, p90),
        is_percentile(floors, 99, p99),
        is_highest_ceiling(floors, max),
    ensures
        min <= p50 <= p90 <= p99 <= max,
        floors.len() == 0 ==> min == 0 && max == 0,
{
    lemma_percentiles_ordered(floors, 50, p50, 90, p90);
    lemma_percentiles_ordered(floors, 90, p90, 99, p99);
    if floors.len() > 0 {
        let n = floors.len();
        let (a, a_rank) = choose|f: u64, rank: nat| #[trigger]
            has_rank(floors, f, rank) && is_percent_rank(50, n, rank) && p50 == slot_ceiling(f);
        lemma_ranks_ordered(floors, a, a_rank, a, a_rank);
        law_slot_resolution(a);
        let (b, b_rank) = choose|f: u64, rank: nat| #[trigger]
            has_rank(floors, f, rank) && is_percent_rank(99, n, rank) && p99 == slot_ceiling(f);
        lemma_ranks_ordered(floors, b, b_rank, b, b_rank);
        let top = choose|top: u64| #[trigger]
            floors.contains(top) && max == slot_ceiling(top) && forall|x: u64| #[trigger]
                floors.contains(x) ==> x <= top;
        law_slots_are_ordered(b, top);
    }
}

/// Offering a latency changes at most the count of its own slot, by one, and a latency that
/// is not tracked changes nothing.
pub proof fn law_offering_touches_one_slot(floors: Multiset<u64>, ns: u64, other: u64)
    ensures
        other != slot_floor(ns) ==> offered(floors, ns).count(other) == floors.count(other),
        ns < UNTRACKED_LATENCY_NS && floors.count(slot_floor(ns)) < u64::MAX ==> offered(
            floors,
            ns,
        ).count(slot_floor(ns)) == floors.count(slot_floor(ns)) + 1,
        ns >= 0x10_0000_0000 ==> offered(floors, ns) == floors,
        HIGHEST_LATENCY_NS == 60_000_000_000,
        HIGHEST_LATENCY_NS < UNTRACKED_LATENCY_NS,
{
}

/// Offering a tracked latency several times adds as many counts to its slot, and to no
/// other, as long as the counter goes that far.
pub proof fn law_offering_again_adds_up(floors: Multiset<u64>, ns: u64, n: nat, other: u64)
    requires
        ns < UNTRACKED_LATENCY_NS,
        floors.count(slot_floor(ns)) + n <= u64::MAX,
    ensures
        offered_times(floors, ns, n).len() == floors.len() + n,
        offered_times(floors, ns, n).count(slot_floor(ns)) == floors.count(slot_floor(ns)) + n,
        other != slot_floor(ns) ==> offered_times(floors, ns, n).count(other) == floors.count(
            other,
        ),
    decreases n,
{
    if n > 0 {
        law_offering_again_adds_up(floors, ns, (n - 1) as nat, other);
    }
}

proof fn lemma_filter_grows(floors: Multiset<u64>, a: spec_fn(u64) -> bool, b: spec_fn(u64) -> bool)
    requires
        forall|x: u64| #[trigger] floors.contains(x) && a(x) ==> b(x),
    ensures
        floors.filter(a).len() <= floors.filter(b).len(),
{
    let small = floors.filter(a);
    let large = floors.filter(b);
    assert forall|x: u64| #[trigger] small.count(x) <= large.count(x) by {
        if floors.count(x) > 0 {
            assert(floors.contains(x));
        }
    }
    assert(small.subset_of(large));
    assert(large.sub(small).len() == large.len() - small.len());
}

/// A percentile does what its name says: at least that percentage of the latencies held are,
/// by the tops of their slots, not above it, and less than that percentage are below it.
pub proof fn law_percentile_splits_the_latencies(floors: Multiset<u64>, percent: u8, value: u64)
    requires
        all_tracked(floors),
        0 < floors.len() < EXACT_RANKS,
        is_percentile(floors, percent, value),
    ensures
        100 * floors.filter(|x: u64| slot_ceiling(x) <= value).len() >= percent * floors.len(),
        100 * floors.filter(|x: u64| slot_ceiling(x) < value).len() < percent * floors.len(),
{
    let n = floors.len();
    let (f, rank) = choose|f: u64, rank: nat| #[trigger]
        has_rank(floors, f, rank) && is_percent_rank(percent, n, rank) && value == slot_ceiling(f);
    lemma_ranks_ordered(floors, f, rank, f, rank);
    let below_f = |x: u64| x < f;
    let up_to_f = |x: u64| x <= f;
    let low = |x: u64| slot_ceiling(x) < value;
    let up_to = |x: u64| slot_ceiling(x) <= value;
    assert forall|x: u64| #[trigger] floors.contains(x) && low(x) implies below_f(x) by {
        if x >= f {
            law_slots_are_ordered(f, x);
        }
    }
    lemma_filter_grows(floors, low, below_f);
    assert forall|x: u64| #[trigger] floors.contains(x) && up_to_f(x) implies up_to(x) by {
        law_slots_are_ordered(x, f);
    }
    lemma_filter_grows(floors, up_to_f, up_to);
    let below = floors.filter(below_f);
    let all = floors.filter(up_to_f);
    assert(below.subset_of(all));
    let only = all.sub(below);
    assert(only.count(f) == floors.count(f));
    assert(only.count(f) <= only.len());
    assert(only.len() == all.len() - below.len());
    assert(EXACT_RANKS == 0x2000_0000_0000);
}

/// No latency held is below the lowest reported or above the highest.
pub proof fn law_reported_extremes_enclose_all(floors: Multiset<u64>, min: u64, max: u64, x: u64)
    requires
        all_tracked(floors),
        is_lowest(floors, min),
        is_highest_ceiling(floors, max),
        floors.contains(x),
    ensures
        min <= x <= max,
        floors.contains(min),
        exists|top: u64| #[trigger] floors.contains(top) && slot_ceiling(top) == max,
{
    let top = choose|top: u64| #[trigger]
        floors.contains(top) && max == slot_ceiling(top) && forall|y: u64| #[trigger]
            floors.contains(y) ==> y <= top;
    law_slot_resolution(top);
    assert(floors.count(x) <= floors.len());
}

} // verus!
