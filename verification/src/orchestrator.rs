//! The course of a benchmark run: which steps it takes, and what it keeps of each.

use crate::client::{GrpcResult, QuicResult, TcpResult};
use crate::datagen::{drawn, generate_payloads, number_payloads};
use crate::messages::{BenchmarkReport, SerdeStatsProto};
use crate::report::{count_outcome, tallies, tally_arrivals, ArrivalTally, FirstArrival};
use crate::tracker::Transport;
use vstd::prelude::*;

verus! {

/// What a run is to do.
pub struct BenchmarkConfig {
    pub grpc_addr: String,
    pub quic_addr: String,
    pub tcp_addr: String,
    pub sizes: Vec<(&'static str, usize)>,
    pub packets_per_size: usize,
    pub quic_streams: usize,
    pub zero_rtt: bool,
}

/// How decoding fared on the server. The mean is given by the bits of a double-precision
/// number of nanoseconds.
#[derive(Clone, Copy, Debug, PartialEq, Eq, Structural)]
pub struct DecodeStats {
    pub count: usize,
    pub median_ns: u64,
    pub min_ns: u64,
    pub max_ns: u64,
    pub mean_bits: u64,
}

/// What came of one payload size.
pub struct SizeTierResult {
    pub size_name: String,
    pub size_bytes: usize,
    pub grpc: GrpcResult,
    pub quic: QuicResult,
    pub tcp: TcpResult,
    pub grpc_first_count: u64,
    pub quic_first_count: u64,
    pub tcp_first_count: u64,
    pub tie_count: u64,
    pub quic_decode_stats: Option<DecodeStats>,
    pub tcp_decode_stats: Option<DecodeStats>,
}

/// The packets to send for one payload size.
#[derive(Clone, Copy, Debug)]
pub struct BlastJob {
    pub size_name: &'static str,
    pub size_bytes: usize,
    pub packets: usize,
    pub quic_streams: usize,
    pub zero_rtt: bool,
}

/// `list` is the packets of a job: as many as asked for, numbered from zero, each with a
/// payload of the size in hand.
pub open spec fn fits_job(list: Seq<(u64, Vec<u8>)>, job: BlastJob) -> bool {
    &&& list.len() == job.packets
    &&& forall|i: int|
        0 <= i < list.len() ==> (#[trigger] list[i]).0 == i && list[i].1@.len() == job.size_bytes
}

/// Two lists have the same numbers and payloads.
pub open spec fn same_packets(a: Seq<(u64, Vec<u8>)>, b: Seq<(u64, Vec<u8>)>) -> bool {
    &&& a.len() == b.len()
    &&& forall|i: int| 0 <= i < a.len() ==> (#[trigger] a[i]).0 == b[i].0 && a[i].1@ == b[i].1@
}

/// Draws the payloads of a job, and gives each transport its own copy of the same packets.
pub fn job_payloads(job: &BlastJob) -> (lists: (
    Vec<(u64, Vec<u8>)>,
    Vec<(u64, Vec<u8>)>,
    Vec<(u64, Vec<u8>)>,
))
    ensures
        fits_job(lists.0@, *job),
        fits_job(lists.1@, *job),
        fits_job(lists.2@, *job),
        same_packets(lists.0@, lists.1@),
        same_packets(lists.0@, lists.2@),
        forall|i: int| 0 <= i < lists.0@.len() ==> drawn((#[trigger] lists.0@[i]).1@),
{
    let payloads = generate_payloads(job.size_bytes, job.packets);
    (number_payloads(&payloads), number_payloads(&payloads), number_payloads(&payloads))
}

/// What a run does next.
#[derive(Clone, Copy, Debug)]
pub enum RunStep {
    /// Connect over QUIC once, so that later connections can resume the session.
    WarmUp,
    /// Send the packets of one payload size over all transports at the same time.
    Blast(BlastJob),
    /// Ask the server for its report.
    FetchReport,
    /// Nothing is left to do.
    Finished,
}

/// The stats that the server reports, with the count as a length.
pub open spec fn stats_from(proto: SerdeStatsProto) -> DecodeStats {
    DecodeStats {
        count: proto.count as usize,
        median_ns: proto.median_ns,
        min_ns: proto.min_ns,
        max_ns: proto.max_ns,
        mean_bits: proto.mean_bits,
    }
}

/// The stats that the server reports, where it does.
pub open spec fn stats_if_reported(proto: Option<SerdeStatsProto>) -> Option<DecodeStats> {
    match proto {
        Some(p) => Some(stats_from(p)),
        None => None,
    }
}

/// Reads the stats that the server reports. The count is cut to the width of a length.
pub fn proto_to_stats(proto: &SerdeStatsProto) -> (stats: DecodeStats)
    ensures
        stats == stats_from(*proto),
{
    DecodeStats {
        count: #[verifier::truncate] (proto.count as usize),
        median_ns: proto.median_ns,
        min_ns: proto.min_ns,
        max_ns: proto.max_ns,
        mean_bits: proto.mean_bits,
    }
}

/// Reads the stats that the server reports, where it does.
fn read_stats(proto: &Option<SerdeStatsProto>) -> (stats: Option<DecodeStats>)
    ensures
        stats == stats_if_reported(*proto),
{
    match proto {
        Some(p) => Some(proto_to_stats(p)),
        None => None,
    }
}

/// `result` holds what came of one payload size: what the transports measured, and what
/// the server's report says.
pub open spec fn sums_up(
    result: SizeTierResult,
    size: (&'static str, usize),
    blasted: (GrpcResult, QuicResult, TcpResult),
    report: BenchmarkReport,
) -> bool {
    &&& result.size_name@ == size.0@
    &&& result.size_bytes == size.1
    &&& result.grpc == blasted.0
    &&& result.quic == blasted.1
    &&& result.tcp == blasted.2
    &&& tallies(
        report.arrivals@,
        ArrivalTally {
            grpc_first: result.grpc_first_count,
            quic_first: result.quic_first_count,
            tcp_first: result.tcp_first_count,
            ties: result.tie_count,
        },
    )
    &&& result.quic_decode_stats == stats_if_reported(report.quic_decode_stats)
    &&& result.tcp_decode_stats == stats_if_reported(report.tcp_decode_stats)
}

/// The metrics of a payload size are fit to be read.
pub open spec fn readable(grpc: GrpcResult, quic: QuicResult, tcp: TcpResult) -> bool {
    grpc.metrics.wf() && quic.metrics.wf() && tcp.metrics.wf()
}

/// A benchmark run and how far it has come.
pub struct BenchmarkRun {
    config: BenchmarkConfig,
    warm: bool,
    blasted: Option<(GrpcResult, QuicResult, TcpResult)>,
    results: Vec<SizeTierResult>,
}

impl BenchmarkRun {
    /// What the run is to do.
    pub closed spec fn config(&self) -> BenchmarkConfig {
        self.config
    }

    /// The warm-up is done, or none is called for.
    pub closed spec fn warm(&self) -> bool {
        self.warm
    }

    /// What the transports measured for the size in hand, once its packets are sent.
    pub closed spec fn blasted(&self) -> Option<(GrpcResult, QuicResult, TcpResult)> {
        self.blasted
    }

    /// What came of the sizes that are done.
    pub closed spec fn results(&self) -> Seq<SizeTierResult> {
        self.results@
    }

    /// The sizes that are done come first in the list of sizes, in its order; a warm-up
    /// comes before all of them; and packets are only sent for a size on the list.
    pub open spec fn wf(&self) -> bool {
        let sizes = self.config().sizes@;
        let results = self.results();
        &&& results.len() <= sizes.len()
        &&& self.blasted() is Some ==> results.len() < sizes.len()
        &&& !self.warm() ==> self.config().zero_rtt && results.len() == 0 && self.blasted() is None
        &&& forall|i: int|
            0 <= i < results.len() ==> (#[trigger] results[i]).size_name@ == sizes[i].0@
                && results[i].size_bytes == sizes[i].1 && readable(
                results[i].grpc,
                results[i].quic,
                results[i].tcp,
            )
        &&& self.blasted() matches Some(b) ==> readable(b.0, b.1, b.2)
    }

    /// The packets to send for the size in hand.
    pub open spec fn job(&self) -> BlastJob {
        let size = self.config().sizes@[self.results().len() as int];
        BlastJob {
            size_name: size.0,
            size_bytes: size.1,
            packets: self.config().packets_per_size,
            quic_streams: self.config().quic_streams,
            zero_rtt: self.config().zero_rtt,
        }
    }

    /// What the run does next.
    pub open spec fn next_step(&self) -> RunStep {
        if !self.warm() {
            RunStep::WarmUp
        } else if self.blasted() is Some {
            RunStep::FetchReport
        } else if self.results().len() < self.config().sizes@.len() {
            RunStep::Blast(self.job())
        } else {
            RunStep::Finished
        }
    }

    /// How many steps are left.
    pub open spec fn steps_left(&self) -> int {
        (if self.warm() {
            0int
        } else {
            1int
        }) + 2 * (self.config().sizes@.len() - self.results().len()) - (if self.blasted() is Some {
            1int
        } else {
            0int
        })
    }

    /// A run that has not started.
    pub fn new(config: BenchmarkConfig) -> (run: Self)
        ensures
            run.wf(),
            run.config() == config,
            run.warm() == !config.zero_rtt,
            run.blasted() is None,
            run.results() == Seq::<SizeTierResult>::empty(),
            run.steps_left() == 2 * config.sizes@.len() + if config.zero_rtt {
                1int
            } else {
                0int
            },
    {
        let warm = !config.zero_rtt;
        BenchmarkRun { config, warm, blasted: None, results: Vec::new() }
    }

    /// Says what the run does next.
    pub fn step(&self) -> (step: RunStep)
        requires
            self.wf(),
        ensures
            step == self.next_step(),
    {
        if !self.warm {
            return RunStep::WarmUp;
        }
        if let Some(_) = &self.blasted {
            return RunStep::FetchReport;
        }
        let tier: usize = self.results.len();
        if tier < self.config.sizes.len() {
            let (size_name, size_bytes) = self.config.sizes[tier];
            RunStep::Blast(
                BlastJob {
                    size_name,
                    size_bytes,
                    packets: self.config.packets_per_size,
                    quic_streams: self.config.quic_streams,
                    zero_rtt: self.config.zero_rtt,
                },
            )
        } else {
            RunStep::Finished
        }
    }

    /// The warm-up is done.
    pub fn warmed_up(&mut self)
        requires
            old(self).wf(),
            old(self).next_step() is WarmUp,
        ensures
            final(self).wf(),
            final(self).config() == old(self).config(),
            final(self).warm(),
            final(self).blasted() == old(self).blasted(),
            final(self).results() == old(self).results(),
            final(self).steps_left() == old(self).steps_left() - 1,
    {
        self.warm = true;
    }

    /// The packets of the size in hand are sent.
    pub fn sent(&mut self, grpc: GrpcResult, quic: QuicResult, tcp: TcpResult)
        requires
            old(self).wf(),
            old(self).next_step() is Blast,
            readable(grpc, quic, tcp),
        ensures
            final(self).wf(),
            final(self).config() == old(self).config(),
            final(self).warm() == old(self).warm(),
            final(self).blasted() == Some((grpc, quic, tcp)),
            final(self).results() == old(self).results(),
            final(self).steps_left() == old(self).steps_left() - 1,
    {
        self.blasted = Some((grpc, quic, tcp));
    }

    /// The server has reported on the size in hand, which is thereby done.
    pub fn reported(&mut self, report: &BenchmarkReport)
        requires
            old(self).wf(),
            old(self).next_step() is FetchReport,
        ensures
            final(self).wf(),
            final(self).config() == old(self).config(),
            final(self).warm() == old(self).warm(),
            final(self).blasted() is None,
            final(self).results().len() == old(self).results().len() + 1,
            final(self).results().drop_last() == old(self).results(),
            sums_up(
                final(self).results().last(),
                old(self).config().sizes@[old(self).results().len() as int],
                old(self).blasted()->0,
                *report,
            ),
            final(self).steps_left() == old(self).steps_left() - 1,
    {
        let (size_name, size_bytes) = self.config.sizes[self.results.len()];
        let tally = tally_arrivals(&report.arrivals);
        match self.blasted.take() {
            Some((grpc, quic, tcp)) => {
                self.results.push(
                    SizeTierResult {
                        size_name: size_name.to_owned(),
                        size_bytes,
                        grpc,
                        quic,
                        tcp,
                        grpc_first_count: tally.grpc_first,
                        quic_first_count: tally.quic_first,
                        tcp_first_count: tally.tcp_first,
                        tie_count: tally.ties,
                        quic_decode_stats: read_stats(&report.quic_decode_stats),
                        tcp_decode_stats: read_stats(&report.tcp_decode_stats),
                    },
                );
            },
            None => {},
        }
        assert(self.results().drop_last() =~= old(self).results());
    }

    /// Ends the run and hands out what came of each size.
    pub fn finish(self) -> (results: Vec<SizeTierResult>)
        requires
            self.wf(),
            self.next_step() is Finished,
        ensures
            results@ == self.results(),
            results@.len() == self.config().sizes@.len(),
            forall|i: int|
                0 <= i < results@.len() ==> (#[trigger] results@[i]).size_name@
                    == self.config().sizes@[i].0@ && results@[i].size_bytes
                    == self.config().sizes@[i].1 && readable(
                    results@[i].grpc,
                    results@[i].quic,
                    results@[i].tcp,
                ),
    {
        self.results
    }
}

/// A run is finished exactly where no step is left, and never has less than none left:
/// since each step takes one off, it comes to its end after a warm-up, where one is called
/// for, and two steps for each size.
pub proof fn law_run_comes_to_its_end(run: BenchmarkRun)
    requires
        run.wf(),
    ensures
        run.steps_left() >= 0,
        run.steps_left() == 0 <==> run.next_step() is Finished,
{
}

/// Nothing is sent before the warm-up, and a warm-up comes only where the run resumes
/// sessions.
pub proof fn law_warm_up_comes_first(run: BenchmarkRun)
    requires
        run.wf(),
        run.next_step() is WarmUp,
    ensures
        run.config().zero_rtt,
        run.results().len() == 0,
        run.blasted() is None,
        run.steps_left() == 2 * run.config().sizes@.len() + 1,
{
}

/// The size in hand is the first on the list that is not done yet, and every size before
/// it is done.
pub proof fn law_sizes_are_taken_in_order(run: BenchmarkRun)
    requires
        run.wf(),
        run.next_step() is Blast || run.next_step() is FetchReport,
    ensures
        run.results().len() < run.config().sizes@.len(),
        forall|i: int|
            0 <= i < run.results().len() ==> (#[trigger] run.results()[i]).size_name@
                == run.config().sizes@[i].0@,
        run.job().size_name == run.config().sizes@[run.results().len() as int].0,
        run.job().size_bytes == run.config().sizes@[run.results().len() as int].1,
{
}

/// The job in hand is what the configuration asks for: its number of packets, of streams
/// and its resumption flag, with the first size on the list that is not done yet.
pub proof fn law_job_follows_the_configuration(run: BenchmarkRun)
    requires
        run.wf(),
        run.results().len() < run.config().sizes@.len(),
    ensures
        run.job().packets == run.config().packets_per_size,
        run.job().quic_streams == run.config().quic_streams,
        run.job().zero_rtt == run.config().zero_rtt,
        run.job().size_name == run.config().sizes@[run.results().len() as int].0,
        run.job().size_bytes == run.config().sizes@[run.results().len() as int].1,
        run.next_step() matches RunStep::Blast(job) ==> job.packets
            == run.config().packets_per_size && job.quic_streams == run.config().quic_streams
            && job.zero_rtt == run.config().zero_rtt && job.size_name
            == run.config().sizes@[run.results().len() as int].0 && job.size_bytes
            == run.config().sizes@[run.results().len() as int].1,
{
}

/// The steps follow each other: a warm-up while one is due, then for each size first its
/// packets and then its report, and the end exactly when every size is done.
pub proof fn law_steps_follow_each_other(run: BenchmarkRun)
    requires
        run.wf(),
    ensures
        run.next_step() is WarmUp <==> !run.warm(),
        run.next_step() is FetchReport <==> run.warm() && run.blasted() is Some,
        run.next_step() is Blast <==> run.warm() && run.blasted() is None && run.results().len()
            != run.config().sizes@.len(),
        run.next_step() is Finished <==> run.warm() && run.blasted() is None && run.results().len()
            == run.config().sizes@.len(),
        run.next_step() is Finished ==> run.steps_left() == 0,
{
}

/// A step takes exactly one off what is left: two for each size, one for a warm-up that is
/// due, less one where the packets in hand are sent.
pub proof fn law_steps_left_are_counted(run: BenchmarkRun)
    ensures
        run.warm() && run.blasted() is None ==> run.steps_left() == 2 * (run.config().sizes@.len()
            - run.results().len()),
        run.warm() && run.blasted() is Some ==> run.steps_left() == 2 * (run.config().sizes@.len()
            - run.results().len()) - 1,
        !run.warm() && run.blasted() is None ==> run.steps_left() == 2 * (run.config().sizes@.len()
            - run.results().len()) + 1,
{
}

/// What is kept of a size is what the transports measured and what the server reported:
/// every count is that of the report's entries, and decoding is shown as reported, or not at
/// all where the server says nothing.
pub proof fn law_result_is_what_was_measured_and_reported(
    result: SizeTierResult,
    size: (&'static str, usize),
    blasted: (GrpcResult, QuicResult, TcpResult),
    report: BenchmarkReport,
)
    requires
        sums_up(result, size, blasted, report),
    ensures
        result.size_name@ == size.0@,
        result.size_bytes == size.1,
        result.grpc == blasted.0,
        result.quic == blasted.1,
        result.tcp == blasted.2,
        result.grpc_first_count == count_outcome(
            report.arrivals@,
            FirstArrival::Winner(Transport::Grpc),
        ),
        result.quic_first_count == count_outcome(
            report.arrivals@,
            FirstArrival::Winner(Transport::Quic),
        ),
        result.tcp_first_count == count_outcome(
            report.arrivals@,
            FirstArrival::Winner(Transport::Tcp),
        ),
        result.tie_count == count_outcome(report.arrivals@, FirstArrival::Tie),
        report.quic_decode_stats is None ==> result.quic_decode_stats is None,
        report.tcp_decode_stats is None ==> result.tcp_decode_stats is None,
        report.quic_decode_stats matches Some(p) ==> (result.quic_decode_stats matches Some(s)
            && same_figures(p, s)),
        report.tcp_decode_stats matches Some(p) ==> (result.tcp_decode_stats matches Some(s)
            && same_figures(p, s)),
{
    if let Some(p) = report.quic_decode_stats {
        law_reported_figures_are_taken_over(p);
    }
    if let Some(p) = report.tcp_decode_stats {
        law_reported_figures_are_taken_over(p);
    }
}

/// Two reports on decoding agree in every figure, as far as a length can hold the count.
pub open spec fn same_figures(proto: SerdeStatsProto, stats: DecodeStats) -> bool {
    &&& proto.count <= usize::MAX ==> stats.count == proto.count
    &&& stats.median_ns == proto.median_ns
    &&& stats.min_ns == proto.min_ns
    &&& stats.max_ns == proto.max_ns
    &&& stats.mean_bits == proto.mean_bits
}

/// The figures that the server reports are taken over one by one.
pub proof fn law_reported_figures_are_taken_over(proto: SerdeStatsProto)
    ensures
        proto.count <= usize::MAX ==> stats_from(proto).count == proto.count,
        stats_from(proto).median_ns == proto.median_ns,
        stats_from(proto).min_ns == proto.min_ns,
        stats_from(proto).max_ns == proto.max_ns,
        stats_from(proto).mean_bits == proto.mean_bits,
        same_figures(proto, stats_from(proto)),
{
}

/// The lists of a job hold the same packets, numbered from zero and of the size in hand.
pub proof fn law_job_lists_agree(
    a: Seq<(u64, Vec<u8>)>,
    b: Seq<(u64, Vec<u8>)>,
    job: BlastJob,
    i: int,
)
    requires
        fits_job(a, job),
        same_packets(a, b),
        0 <= i < job.packets,
    ensures
        a.len() == job.packets,
        b.len() == job.packets,
        a[i].0 == i,
        b[i].0 == i,
        a[i].1@.len() == job.size_bytes,
        a[i].1@ == b[i].1@,
{
}

} // verus!
