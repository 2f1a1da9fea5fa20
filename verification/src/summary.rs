//! What is shown of a benchmark run when it is over.

use crate::metrics::{
    is_highest_ceiling, is_lowest, is_percentile, law_reported_latencies_ascend, mean_bits_of,
    MetricsCollector,
};
use crate::orchestrator::{DecodeStats, SizeTierResult};
use crate::serde_metrics::{stats_of, SerdeStats};
use crate::tracker::Transport;
use vstd::prelude::*;

verus! {

/// What is shown of one transport's metrics. The mean is given by the bits of a
/// double-precision number of nanoseconds.
#[derive(Clone, Copy, Debug, PartialEq, Eq, Structural)]
pub struct TransportSummary {
    pub p50_ns: u64,
    pub p90_ns: u64,
    pub p99_ns: u64,
    pub mean_bits: u64,
    pub min_ns: u64,
    pub max_ns: u64,
    pub total_bytes: u64,
    pub elapsed_ns: u128,
}

/// What is shown of one payload size.
pub struct TierSummary {
    pub size_name: String,
    /// How many packets gRPC acknowledged.
    pub packets: u64,
    pub grpc: TransportSummary,
    pub quic: TransportSummary,
    pub tcp: TransportSummary,
    pub lost_packets: u64,
    pub sent_packets: u64,
    pub quic_encode: SerdeStats,
    pub quic_decode: Option<DecodeStats>,
    pub tcp_encode: SerdeStats,
    pub tcp_decode: Option<DecodeStats>,
    pub grpc_first: u64,
    pub quic_first: u64,
    pub tcp_first: u64,
    pub ties: u64,
    /// The transport that came first most often.
    pub winner: Transport,
    /// How often it did.
    pub winner_count: u64,
    /// How often any transport came first, alone or with others.
    pub decided: u128,
}

/// What is shown of a whole run.
pub struct RunSummary {
    pub tiers: Vec<TierSummary>,
    pub total_lost: u128,
    pub total_sent: u128,
}

/// How often a transport came first.
pub open spec fn firsts(result: SizeTierResult, transport: Transport) -> u64 {
    match transport {
        Transport::Grpc => result.grpc_first_count,
        Transport::Quic => result.quic_first_count,
        Transport::Tcp => result.tcp_first_count,
    }
}

/// The order in which transports are listed.
pub open spec fn listed(transport: Transport) -> int {
    match transport {
        Transport::Grpc => 0,
        Transport::Quic => 1,
        Transport::Tcp => 2,
    }
}

/// `transport` came first at least as often as any other, and more often than those that
/// are listed after it.
pub open spec fn leads(result: SizeTierResult, transport: Transport) -> bool {
    forall|other: Transport|
        other != transport ==> #[trigger] firsts(result, other) < firsts(result, transport) || (
        firsts(result, other) == firsts(result, transport) && listed(other) < listed(transport))
}

/// The metrics hold so few latencies that their ranks can be told.
pub open spec fn countable(metrics: MetricsCollector) -> bool {
    metrics.wf() && metrics.floors().len() < u64::MAX
}

/// `shown` is what is shown of `metrics`.
pub open spec fn shows(shown: TransportSummary, metrics: MetricsCollector, elapsed_ns: u128) -> bool {
    let floors = metrics.floors();
    &&& is_percentile(floors, 50, shown.p50_ns)
    &&& is_percentile(floors, 90, shown.p90_ns)
    &&& is_percentile(floors, 99, shown.p99_ns)
    &&& shown.mean_bits == mean_bits_of(floors)
    &&& is_lowest(floors, shown.min_ns)
    &&& is_highest_ceiling(floors, shown.max_ns)
    &&& shown.total_bytes == metrics.bytes()
    &&& shown.elapsed_ns == elapsed_ns
}

/// `shown` is what is shown of `result`.
pub open spec fn shows_tier(shown: TierSummary, result: SizeTierResult) -> bool {
    &&& shown.size_name@ == result.size_name@
    &&& result.grpc.metrics.floors().len() < u64::MAX ==> shown.packets
        == result.grpc.metrics.floors().len()
    &&& shows(shown.grpc, result.grpc.metrics, result.grpc.elapsed_ns)
    &&& shows(shown.quic, result.quic.metrics, result.quic.elapsed_ns)
    &&& shows(shown.tcp, result.tcp.metrics, result.tcp.elapsed_ns)
    &&& shown.lost_packets == result.quic.lost_packets
    &&& shown.sent_packets == result.quic.sent_packets
    &&& shown.quic_encode == stats_of(result.quic.encode_metrics@)
    &&& shown.quic_decode == result.quic_decode_stats
    &&& shown.tcp_encode == stats_of(result.tcp.encode_metrics@)
    &&& shown.tcp_decode == result.tcp_decode_stats
    &&& shown.grpc_first == result.grpc_first_count
    &&& shown.quic_first == result.quic_first_count
    &&& shown.tcp_first == result.tcp_first_count
    &&& shown.ties == result.tie_count
    &&& leads(result, shown.winner)
    &&& shown.winner_count == firsts(result, shown.winner)
    &&& shown.decided == result.grpc_first_count + result.quic_first_count + result.tcp_first_count
        + result.tie_count
}

/// The QUIC packets that were lost over all sizes.
pub open spec fn lost_in(results: Seq<SizeTierResult>) -> nat
    decreases results.len(),
{
    if results.len() == 0 {
        0
    } else {
        lost_in(results.drop_last()) + results.last().quic.lost_packets as nat
    }
}

/// The QUIC packets that were sent over all sizes.
pub open spec fn sent_in(results: Seq<SizeTierResult>) -> nat
    decreases results.len(),
{
    if results.len() == 0 {
        0
    } else {
        sent_in(results.drop_last()) + results.last().quic.sent_packets as nat
    }
}

/// The latencies of all three transports can be ranked.
pub open spec fn tier_countable(result: SizeTierResult) -> bool {
    countable(result.grpc.metrics) && countable(result.quic.metrics) && countable(
        result.tcp.metrics,
    )
}

/// Says which transport came first most often; of several that did, the one listed last.
pub fn leader(result: &SizeTierResult) -> (winner: Transport)
    ensures
        leads(*result, winner),
{
    let grpc: u64 = result.grpc_first_count;
    let quic: u64 = result.quic_first_count;
    let tcp: u64 = result.tcp_first_count;
    if tcp >= quic && tcp >= grpc {
        Transport::Tcp
    } else if quic >= grpc {
        Transport::Quic
    } else {
        Transport::Grpc
    }
}

/// Reads off what is shown of one transport's metrics. The latencies ascend from the lowest
/// over the percentiles to the highest, and are zero where there are none.
pub fn summarize_transport(metrics: &MetricsCollector, elapsed_ns: u128) -> (shown: TransportSummary)
    requires
        countable(*metrics),
    ensures
        shows(shown, *metrics, elapsed_ns),
        shown.min_ns <= shown.p50_ns <= shown.p90_ns <= shown.p99_ns <= shown.max_ns,
        metrics.floors().len() == 0 ==> shown.min_ns == 0 && shown.max_ns == 0,
{
    let shown = TransportSummary {
        p50_ns: metrics.p50_ns(),
        p90_ns: metrics.p90_ns(),
        p99_ns: metrics.p99_ns(),
        mean_bits: metrics.mean_bits(),
        min_ns: metrics.min_ns(),
        max_ns: metrics.max_ns(),
        total_bytes: metrics.total_bytes(),
        elapsed_ns,
    };
    proof {
        law_shown_latencies_ascend(shown, *metrics, elapsed_ns);
    }
    shown
}

/// Reads off what is shown of one payload size.
pub fn summarize_tier(result: &SizeTierResult) -> (shown: TierSummary)
    requires
        tier_countable(*result),
    ensures
        shows_tier(shown, *result),
{
    let winner = leader(result);
    let winner_count: u64 = match winner {
        Transport::Grpc => result.grpc_first_count,
        Transport::Quic => result.quic_first_count,
        Transport::Tcp => result.tcp_first_count,
    };
    let decided: u128 = result.grpc_first_count as u128 + result.quic_first_count as u128
        + result.tcp_first_count as u128 + result.tie_count as u128;
    TierSummary {
        size_name: result.size_name.clone(),
        packets: result.grpc.metrics.count(),
        grpc: summarize_transport(&result.grpc.metrics, result.grpc.elapsed_ns),
        quic: summarize_transport(&result.quic.metrics, result.quic.elapsed_ns),
        tcp: summarize_transport(&result.tcp.metrics, result.tcp.elapsed_ns),
        lost_packets: result.quic.lost_packets,
        sent_packets: result.quic.sent_packets,
        quic_encode: result.quic.encode_metrics.stats(),
        quic_decode: result.quic_decode_stats,
        tcp_encode: result.tcp.encode_metrics.stats(),
        tcp_decode: result.tcp_decode_stats,
        grpc_first: result.grpc_first_count,
        quic_first: result.quic_first_count,
        tcp_first: result.tcp_first_count,
        ties: result.tie_count,
        winner,
        winner_count,
        decided,
    }
}

/// Reads off what is shown of a run: each size in order, and how many QUIC packets were
/// lost and sent in all.
pub fn summarize(results: &Vec<SizeTierResult>) -> (shown: RunSummary)
    requires
        forall|i: int| 0 <= i < results@.len() ==> tier_countable(#[trigger] results@[i]),
    ensures
        shown.tiers@.len() == results@.len(),
        forall|i: int|
            0 <= i < results@.len() ==> shows_tier(#[trigger] shown.tiers@[i], results@[i]),
        shown.total_lost == lost_in(results@),
        shown.total_sent == sent_in(results@),
{
    let mut tiers: Vec<TierSummary> = Vec::new();
    let mut total_lost: u128 = 0;
    let mut total_sent: u128 = 0;
    let mut i: usize = 0;
    while i < results.len()
        invariant
            i <= results@.len(),
            forall|k: int| 0 <= k < results@.len() ==> tier_countable(#[trigger] results@[k]),
            tiers@.len() == i,
            forall|k: int| 0 <= k < i ==> shows_tier(#[trigger] tiers@[k], results@[k]),
            total_lost == lost_in(results@.take(i as int)),
            total_sent == sent_in(results@.take(i as int)),
            total_lost <= i * 0xffff_ffff_ffff_ffff,
            total_sent <= i * 0xffff_ffff_ffff_ffff,
        decreases results@.len() - i,
    {
        assert(results@.take(i + 1).drop_last() =~= results@.take(i as int));
        assert(i * 0xffff_ffff_ffff_ffff + 0xffff_ffff_ffff_ffff <= u128::MAX);
        let result = &results[i];
        tiers.push(summarize_tier(result));
        total_lost = total_lost + result.quic.lost_packets as u128;
        total_sent = total_sent + result.quic.sent_packets as u128;
        i = i + 1;
    }
    assert(results@.take(i as int) =~= results@);
    RunSummary { tiers, total_lost, total_sent }
}

/// There is always exactly one leader.
pub proof fn law_one_leader(result: SizeTierResult, a: Transport, b: Transport)
    requires
        leads(result, a),
        leads(result, b),
    ensures
        a == b,
{
    if a != b {
        assert(firsts(result, a) <= firsts(result, b));
        assert(firsts(result, b) <= firsts(result, a));
    }
}

/// The leader came first in at least a third of the packets that one transport won alone.
pub proof fn law_leader_has_a_third(result: SizeTierResult, winner: Transport)
    requires
        leads(result, winner),
    ensures
        3 * firsts(result, winner) >= result.grpc_first_count + result.quic_first_count
            + result.tcp_first_count,
{
    assert(firsts(result, Transport::Grpc) <= firsts(result, winner));
    assert(firsts(result, Transport::Quic) <= firsts(result, winner));
    assert(firsts(result, Transport::Tcp) <= firsts(result, winner));
}

/// The latencies shown of a transport ascend from the lowest over the percentiles to the
/// highest, and all are zero where there are none.
pub proof fn law_shown_latencies_ascend(
    shown: TransportSummary,
    metrics: MetricsCollector,
    elapsed_ns: u128,
)
    requires
        metrics.wf(),
        shows(shown, metrics, elapsed_ns),
    ensures
        shown.min_ns <= shown.p50_ns <= shown.p90_ns <= shown.p99_ns <= shown.max_ns,
        metrics.floors().len() == 0 ==> shown.min_ns == 0 && shown.max_ns == 0,
{
    metrics.lemma_wf_tracked();
    law_reported_latencies_ascend(
        metrics.floors(),
        shown.min_ns,
        shown.p50_ns,
        shown.p90_ns,
        shown.p99_ns,
        shown.max_ns,
    );
}

/// The transport with the highest count leads, and of several with that count TCP before
/// QUIC before gRPC.
pub proof fn law_highest_count_leads(result: SizeTierResult, winner: Transport)
    requires
        leads(result, winner),
    ensures
        ({
            let grpc = result.grpc_first_count;
            let quic = result.quic_first_count;
            let tcp = result.tcp_first_count;
            &&& winner == Transport::Tcp <==> tcp >= quic && tcp >= grpc
            &&& winner == Transport::Quic <==> quic > tcp && quic >= grpc
            &&& winner == Transport::Grpc <==> grpc > tcp && grpc > quic
        }),
{
    assert(firsts(result, Transport::Grpc) == result.grpc_first_count);
    assert(firsts(result, Transport::Quic) == result.quic_first_count);
    assert(firsts(result, Transport::Tcp) == result.tcp_first_count);
}

/// What is shown of a size is what is known of it: the counts and the losses as they are,
/// the highest count for the winner, and the sum of all four for the packets decided.
pub proof fn law_tier_is_shown_as_it_is(shown: TierSummary, result: SizeTierResult)
    requires
        shows_tier(shown, result),
    ensures
        shown.size_name@ == result.size_name@,
        shown.grpc_first == result.grpc_first_count,
        shown.quic_first == result.quic_first_count,
        shown.tcp_first == result.tcp_first_count,
        shown.ties == result.tie_count,
        shown.decided == shown.grpc_first + shown.quic_first + shown.tcp_first + shown.ties,
        shown.winner_count >= shown.grpc_first,
        shown.winner_count >= shown.quic_first,
        shown.winner_count >= shown.tcp_first,
        shown.winner_count == match shown.winner {
            Transport::Grpc => shown.grpc_first,
            Transport::Quic => shown.quic_first,
            Transport::Tcp => shown.tcp_first,
        },
        shown.lost_packets == result.quic.lost_packets,
        shown.sent_packets == result.quic.sent_packets,
        shown.quic_decode == result.quic_decode_stats,
        shown.tcp_decode == result.tcp_decode_stats,
        shown.quic_encode == stats_of(result.quic.encode_metrics@),
        shown.tcp_encode == stats_of(result.tcp.encode_metrics@),
        result.grpc.metrics.floors().len() < u64::MAX ==> shown.packets
            == result.grpc.metrics.floors().len(),
        shown.grpc.total_bytes == result.grpc.metrics.bytes(),
        shown.quic.total_bytes == result.quic.metrics.bytes(),
        shown.tcp.total_bytes == result.tcp.metrics.bytes(),
        shown.grpc.elapsed_ns == result.grpc.elapsed_ns,
        shown.quic.elapsed_ns == result.quic.elapsed_ns,
        shown.tcp.elapsed_ns == result.tcp.elapsed_ns,
        is_percentile(result.grpc.metrics.floors(), 50, shown.grpc.p50_ns),
        is_percentile(result.quic.metrics.floors(), 50, shown.quic.p50_ns),
        is_percentile(result.tcp.metrics.floors(), 50, shown.tcp.p50_ns),
        is_percentile(result.grpc.metrics.floors(), 90, shown.grpc.p90_ns),
        is_percentile(result.quic.metrics.floors(), 90, shown.quic.p90_ns),
        is_percentile(result.tcp.metrics.floors(), 90, shown.tcp.p90_ns),
        is_percentile(result.grpc.metrics.floors(), 99, shown.grpc.p99_ns),
        is_percentile(result.quic.metrics.floors(), 99, shown.quic.p99_ns),
        is_percentile(result.tcp.metrics.floors(), 99, shown.tcp.p99_ns),
        is_lowest(result.grpc.metrics.floors(), shown.grpc.min_ns),
        is_lowest(result.quic.metrics.floors(), shown.quic.min_ns),
        is_lowest(result.tcp.metrics.floors(), shown.tcp.min_ns),
        is_highest_ceiling(result.grpc.metrics.floors(), shown.grpc.max_ns),
        is_highest_ceiling(result.quic.metrics.floors(), shown.quic.max_ns),
        is_highest_ceiling(result.tcp.metrics.floors(), shown.tcp.max_ns),
        shown.grpc.mean_bits == mean_bits_of(result.grpc.metrics.floors()),
        shown.quic.mean_bits == mean_bits_of(result.quic.metrics.floors()),
        shown.tcp.mean_bits == mean_bits_of(result.tcp.metrics.floors()),
{
    assert(firsts(result, Transport::Grpc) == result.grpc_first_count);
    assert(firsts(result, Transport::Quic) == result.quic_first_count);
    assert(firsts(result, Transport::Tcp) == result.tcp_first_count);
}

/// Losses and packets sent add up over the sizes: each size counts with its own.
pub proof fn law_losses_add_up(
    a: Seq<SizeTierResult>,
    b: Seq<SizeTierResult>,
    result: SizeTierResult,
)
    ensures
        lost_in(Seq::empty()) == 0,
        sent_in(Seq::empty()) == 0,
        lost_in(seq![result]) == result.quic.lost_packets,
        sent_in(seq![result]) == result.quic.sent_packets,
        lost_in(a + b) == lost_in(a) + lost_in(b),
        sent_in(a + b) == sent_in(a) + sent_in(b),
    decreases b.len(),
{
    let one = seq![result];
    assert(one.drop_last() =~= Seq::empty());
    assert(lost_in(one) == lost_in(one.drop_last()) + result.quic.lost_packets);
    assert(sent_in(one) == sent_in(one.drop_last()) + result.quic.sent_packets);
    if b.len() > 0 {
        law_losses_add_up(a, b.drop_last(), result);
        assert((a + b).drop_last() =~= a + b.drop_last());
    } else {
        assert(a + b =~= a);
    }
}

} // verus!
