//! What the client sends and measures over each transport.

use crate::clock::{clock_gave, low_u64, now_ns, timed, ClockBeforeEpoch};
use crate::datagen::WARMUP_SEQUENCE_ID;
use crate::endian::lemma_le_bytes_len;
use crate::frame::{
    frame_message, framed, law_frame_layout, law_reader_gets_what_was_framed, stream_of,
    FrameReader, LENGTH_SIZE,
};
use crate::messages::{BlastAck, BlastPacket};
use crate::metrics::{
    law_repeated_latency, offered, offered_times, slot_floor, MetricsCollector,
    UNTRACKED_LATENCY_NS,
};
use crate::serde_metrics::{one_more, SerdeMetrics};
use crate::wire::{
    encode_and_serialize, encodes_now, encodes_sometime, law_packet_bears_the_reading, low_u32,
    sendable,
};
use vstd::multiset::Multiset;
use vstd::prelude::*;

verus! {

/// What came of sending the packets over gRPC.
pub struct GrpcResult {
    pub metrics: MetricsCollector,
    pub elapsed_ns: u128,
}

/// What came of sending the packets over QUIC.
pub struct QuicResult {
    pub metrics: MetricsCollector,
    pub elapsed_ns: u128,
    pub lost_packets: u64,
    pub sent_packets: u64,
    pub encode_metrics: SerdeMetrics,
}

/// What came of sending the packets over TCP.
pub struct TcpResult {
    pub metrics: MetricsCollector,
    pub elapsed_ns: u128,
    pub encode_metrics: SerdeMetrics,
}

/// The bytes in numbered payloads.
pub open spec fn payload_bytes(payloads: Seq<(u64, Vec<u8>)>) -> nat
    decreases payloads.len(),
{
    if payloads.len() == 0 {
        0
    } else {
        payload_bytes(payloads.drop_last()) + payloads.last().1@.len()
    }
}

proof fn lemma_payload_bytes_grow(payloads: Seq<(u64, Vec<u8>)>, i: int)
    requires
        0 <= i <= payloads.len(),
    ensures
        payload_bytes(payloads.take(i)) <= payload_bytes(payloads),
    decreases payloads.len(),
{
    if i < payloads.len() {
        lemma_payload_bytes_grow(payloads.drop_last(), i);
        assert(payloads.drop_last().take(i) =~= payloads.take(i));
    } else {
        assert(payloads.take(i) =~= payloads);
    }
}

/// Counts the bytes in numbered payloads, unless they are more than 64 bits can count.
pub fn count_payload_bytes(payloads: &Vec<(u64, Vec<u8>)>) -> (total: Option<u64>)
    ensures
        total == if payload_bytes(payloads@) <= u64::MAX {
            Some(payload_bytes(payloads@) as u64)
        } else {
            None
        },
{
    let mut total: u64 = 0;
    let mut i: usize = 0;
    while i < payloads.len()
        invariant
            i <= payloads@.len(),
            total == payload_bytes(payloads@.take(i as int)),
        decreases payloads@.len() - i,
    {
        let len: u64 = payloads[i].1.len() as u64;
        proof {
            assert(payloads@.take(i + 1).drop_last() =~= payloads@.take(i as int));
            lemma_payload_bytes_grow(payloads@, i + 1);
        }
        match total.checked_add(len) {
            Some(sum) => {
                total = sum;
            },
            None => {
                return None;
            },
        }
        i = i + 1;
    }
    assert(payloads@.take(i as int) =~= payloads@);
    Some(total)
}

/// The latencies that stand for `total` packets sent in `elapsed_ns`: each packet counts
/// with an equal part of the low 64 bits of the time.
pub open spec fn even_latencies(total: nat, elapsed_ns: u128) -> Multiset<u64> {
    if total == 0 {
        Multiset::empty()
    } else {
        offered_times(
            Multiset::empty(),
            (elapsed_ns as nat % 0x1_0000_0000_0000_0000 / total) as u64,
            total,
        )
    }
}

/// The metrics of a transport without acknowledgements: the bytes sent, and for each
/// packet an equal part of the time that sending took.
pub fn sent_metrics(total: usize, total_bytes: u64, elapsed_ns: u128) -> (metrics: MetricsCollector)
    ensures
        metrics.wf(),
        metrics.bytes() == total_bytes,
        metrics.floors() == even_latencies(total as nat, elapsed_ns),
{
    let mut metrics = MetricsCollector::new();
    metrics.add_bytes(total_bytes);
    if total > 0 {
        let each_ns: u64 = low_u64(elapsed_ns) / (total as u64);
        metrics.record_latency_times(each_ns, total);
    }
    metrics
}

/// Sums up a run over QUIC.
pub fn quic_result(
    total: usize,
    total_bytes: u64,
    elapsed_ns: u128,
    lost_packets: u64,
    sent_packets: u64,
    encode_metrics: SerdeMetrics,
) -> (result: QuicResult)
    ensures
        result.metrics.wf(),
        result.metrics.bytes() == total_bytes,
        result.metrics.floors() == even_latencies(total as nat, elapsed_ns),
        result.elapsed_ns == elapsed_ns,
        result.lost_packets == lost_packets,
        result.sent_packets == sent_packets,
        result.encode_metrics@ == encode_metrics@,
{
    let metrics = sent_metrics(total, total_bytes, elapsed_ns);
    QuicResult { metrics, elapsed_ns, lost_packets, sent_packets, encode_metrics }
}

/// Sums up a run over TCP.
pub fn tcp_result(
    total: usize,
    total_bytes: u64,
    elapsed_ns: u128,
    encode_metrics: SerdeMetrics,
) -> (result: TcpResult)
    ensures
        result.metrics.wf(),
        result.metrics.bytes() == total_bytes,
        result.metrics.floors() == even_latencies(total as nat, elapsed_ns),
        result.elapsed_ns == elapsed_ns,
        result.encode_metrics@ == encode_metrics@,
{
    let metrics = sent_metrics(total, total_bytes, elapsed_ns);
    TcpResult { metrics, elapsed_ns, encode_metrics }
}

/// The packet that carries `payload` over gRPC, stamped with `now`. It has room for the
/// low 32 bits of the payload's size.
pub fn grpc_packet(seq_id: u64, payload: Vec<u8>, now: u64) -> (packet: BlastPacket)
    ensures
        packet.sequence_id == seq_id,
        packet.timestamp_ns == now,
        packet.payload_size == payload@.len() % 0x1_0000_0000,
        packet.payload@ == payload@,
{
    let payload_size: u32 = low_u32(payload.len());
    BlastPacket { sequence_id: seq_id, timestamp_ns: now, payload_size, payload }
}

/// The packet that carries `payload` over gRPC, stamped with a time read off the clock, or
/// that there was none.
pub fn grpc_packet_stamped(
    seq_id: u64,
    payload: Vec<u8>,
    stamp: Result<u64, ClockBeforeEpoch>,
) -> (packet: Result<BlastPacket, ClockBeforeEpoch>)
    ensures
        match stamp {
            Ok(now) => packet matches Ok(p) && p.sequence_id == seq_id && p.timestamp_ns == now
                && p.payload_size == payload@.len() % 0x1_0000_0000 && p.payload@ == payload@,
            Err(e) => packet == Err::<BlastPacket, ClockBeforeEpoch>(e),
        },
{
    match stamp {
        Ok(now) => Ok(grpc_packet(seq_id, payload, now)),
        Err(e) => Err(e),
    }
}

/// The packet that carries `payload` over gRPC, stamped with the current time. It fails
/// only where the system clock shows a moment before the Unix epoch;
/// [`grpc_packet_stamped`] says what comes of each reading.
pub fn grpc_packet_now(seq_id: u64, payload: Vec<u8>) -> (packet: Result<
    BlastPacket,
    ClockBeforeEpoch,
>)
    ensures
        packet matches Ok(p) ==> p.sequence_id == seq_id && p.payload_size == payload@.len()
            % 0x1_0000_0000 && p.payload@ == payload@,
        packet matches Ok(p) ==> clock_gave(Ok(p.timestamp_ns)),
        packet is Err ==> clock_gave(Err(ClockBeforeEpoch)),
{
    grpc_packet_stamped(seq_id, payload, now_ns())
}

/// How long an acknowledgement has been under way: zero where the clocks disagree so far
/// that it seems to come from the future.
pub open spec fn ack_latency(ack: BlastAck, now: u64) -> u64 {
    if now >= ack.received_at_ns {
        (now - ack.received_at_ns) as u64
    } else {
        0
    }
}

/// The latencies counted after one acknowledgement more, at a moment that the system clock
/// gave.
pub open spec fn acked_sometime(
    before: Multiset<u64>,
    ack: BlastAck,
    after: Multiset<u64>,
) -> bool {
    exists|now: u64|
        after == offered(before, #[trigger] ack_latency(ack, now)) && clock_gave(Ok(now))
}

/// Collects the acknowledgements of a run over gRPC.
pub struct AckCollector {
    metrics: MetricsCollector,
    acks: u64,
    expected: u64,
}

impl AckCollector {
    /// The latencies counted so far.
    pub closed spec fn floors(&self) -> Multiset<u64> {
        self.metrics.floors()
    }

    /// How many acknowledgements came.
    pub closed spec fn acks(&self) -> nat {
        self.acks as nat
    }

    /// How many packets are sent.
    pub closed spec fn expected(&self) -> nat {
        self.expected as nat
    }

    /// Nothing is left to wait for: an acknowledgement has come, and as many as packets
    /// are sent.
    pub open spec fn done(&self) -> bool {
        self.acks() >= 1 && self.acks() >= self.expected()
    }

    /// The collector never takes more acknowledgements than it waits for, and counts no
    /// bytes before the end.
    pub closed spec fn wf(&self) -> bool {
        &&& self.metrics.wf()
        &&& self.metrics.bytes() == 0
        &&& self.acks <= self.expected || self.acks <= 1
    }

    /// Waits for the acknowledgements of `total` packets.
    pub fn new(total: usize) -> (collector: Self)
        ensures
            collector.wf(),
            collector.expected() == total,
            collector.acks() == 0,
            collector.floors() == Multiset::<u64>::empty(),
    {
        AckCollector { metrics: MetricsCollector::new(), acks: 0, expected: total as u64 }
    }

    /// Takes in an acknowledgement at `now`, and says whether it was the last to wait for.
    pub fn acknowledge_at(&mut self, ack: &BlastAck, now: u64) -> (last: bool)
        requires
            old(self).wf(),
            !old(self).done(),
        ensures
            final(self).wf(),
            final(self).expected() == old(self).expected(),
            final(self).acks() == old(self).acks() + 1,
            final(self).floors() == offered(old(self).floors(), ack_latency(*ack, now)),
            last == final(self).done(),
    {
        let latency_ns: u64 = now.saturating_sub(ack.received_at_ns);
        self.metrics.record_latency_ns(latency_ns);
        self.acks = self.acks + 1;
        self.acks >= self.expected
    }

    /// Takes in an acknowledgement at a time read off the clock, and says whether it was the
    /// last to wait for. Without a time, nothing changes.
    pub fn acknowledge_reading(
        &mut self,
        ack: &BlastAck,
        reading: Result<u64, ClockBeforeEpoch>,
    ) -> (last: Result<bool, ClockBeforeEpoch>)
        requires
            old(self).wf(),
            !old(self).done(),
        ensures
            final(self).wf(),
            match reading {
                Ok(now) => last == Ok::<bool, ClockBeforeEpoch>(final(self).done())
                    && final(self).expected() == old(self).expected() && final(self).acks()
                    == old(self).acks() + 1 && final(self).floors() == offered(
                    old(self).floors(),
                    ack_latency(*ack, now),
                ),
                Err(e) => last == Err::<bool, ClockBeforeEpoch>(e) && *final(self) == *old(self),
            },
    {
        match reading {
            Ok(now) => Ok(self.acknowledge_at(ack, now)),
            Err(e) => Err(e),
        }
    }

    /// Takes in an acknowledgement now, and says whether it was the last to wait for. It
    /// fails only where the system clock shows a moment before the Unix epoch, and then
    /// changes nothing; [`AckCollector::acknowledge_reading`] says what comes of each reading.
    pub fn acknowledge(&mut self, ack: &BlastAck) -> (last: Result<bool, ClockBeforeEpoch>)
        requires
            old(self).wf(),
            !old(self).done(),
        ensures
            final(self).wf(),
            final(self).expected() == old(self).expected(),
            match last {
                Ok(l) => final(self).acks() == old(self).acks() + 1 && l == final(self).done()
                    && acked_sometime(old(self).floors(), *ack, final(self).floors()),
                Err(_) => *final(self) == *old(self) && clock_gave(Err(ClockBeforeEpoch)),
            },
    {
        let reading = now_ns();
        let last = self.acknowledge_reading(ack, reading);
        proof {
            if let Ok(now) = reading {
                assert(clock_gave(Ok(now)));
                assert(self.floors() == offered(old(self).floors(), ack_latency(*ack, now)));
            }
        }
        last
    }

    /// Ends the collection and counts the bytes that were sent.
    pub fn finish(self, total_bytes: u64, elapsed_ns: u128) -> (result: GrpcResult)
        requires
            self.wf(),
        ensures
            result.metrics.wf(),
            result.metrics.floors() == self.floors(),
            result.metrics.bytes() == total_bytes,
            result.elapsed_ns == elapsed_ns,
    {
        let mut metrics = self.metrics;
        metrics.add_bytes(total_bytes);
        GrpcResult { metrics, elapsed_ns }
    }
}

/// A collector takes exactly as many acknowledgements as packets are sent, and one where
/// none are: it never has more, and is done exactly when it has that many.
pub proof fn law_collector_takes_just_enough(collector: AckCollector)
    requires
        collector.wf(),
    ensures
        ({
            let enough = if collector.expected() < 1 {
                1
            } else {
                collector.expected()
            };
            collector.acks() <= enough && (collector.done() <==> collector.acks() == enough)
        }),
{
}

/// `frame` carries `payload` over TCP under this number and some timestamp.
pub open spec fn frames_packet(frame: Seq<u8>, seq_id: u64, payload: Seq<u8>) -> bool {
    exists|packet: Seq<u8>|
        frame == framed(packet) && #[trigger] encodes_sometime(packet, seq_id, payload)
}

/// `frame` carries `payload` over TCP under this number, stamped with a reading of the
/// system clock.
pub open spec fn frames_packet_now(frame: Seq<u8>, seq_id: u64, payload: Seq<u8>) -> bool {
    exists|packet: Seq<u8>|
        frame == framed(packet) && #[trigger] encodes_now(packet, seq_id, payload)
}

/// Puts an encoded packet in a frame for TCP, or says that there was none.
pub fn frame_packet(packet: Result<Vec<u8>, ClockBeforeEpoch>) -> (frame: Result<
    Vec<u8>,
    ClockBeforeEpoch,
>)
    ensures
        match packet {
            Ok(p) => frame matches Ok(f) && f@ == framed(p@),
            Err(e) => frame == Err::<Vec<u8>, ClockBeforeEpoch>(e),
        },
{
    match packet {
        Ok(p) => Ok(frame_message(p)),
        Err(e) => Err(e),
    }
}

/// Encodes a packet under the current time and puts it in a frame for TCP, and records
/// how long encoding took. It fails only where the system clock shows a moment before the
/// Unix epoch, and then records nothing; what comes of each reading is said by
/// [`encode_stamped`](crate::wire::encode_stamped) and [`frame_packet`].
pub fn tcp_packet(seq_id: u64, payload: Vec<u8>, metrics: &mut SerdeMetrics) -> (frame: Result<
    Vec<u8>,
    ClockBeforeEpoch,
>)
    requires
        sendable(payload@.len()),
    ensures
        frame matches Ok(f) ==> frames_packet(f@, seq_id, payload@),
        frame matches Ok(f) ==> frames_packet_now(f@, seq_id, payload@),
        frame is Ok ==> one_more(old(metrics)@, final(metrics)@),
        frame is Ok ==> timed(final(metrics)@.last()),
        frame is Err ==> final(metrics)@ == old(metrics)@,
        frame is Err ==> clock_gave(Err(ClockBeforeEpoch)),
{
    let ghost plain = payload@;
    let packet = encode_and_serialize(seq_id, payload, metrics);
    let ghost encoded = packet;
    let frame = frame_packet(packet);
    proof {
        if let Ok(p) = encoded {
            assert(encodes_sometime(p@, seq_id, plain));
            assert(frames_packet(frame->Ok_0@, seq_id, plain));
            assert(encodes_now(p@, seq_id, plain));
            assert(frames_packet_now(frame->Ok_0@, seq_id, plain));
        }
    }
    frame
}

/// The packet that a warm-up connection sends over QUIC: one zero byte under
/// [`WARMUP_SEQUENCE_ID`]. Its encoding is not timed. It fails only where the system clock
/// shows a moment before the Unix epoch;
/// [`encode_stamped`](crate::wire::encode_stamped) says what comes of each reading.
pub fn warmup_packet() -> (packet: Result<Vec<u8>, ClockBeforeEpoch>)
    ensures
        packet matches Ok(p) ==> encodes_sometime(p@, WARMUP_SEQUENCE_ID, seq![0u8]),
        packet matches Ok(p) ==> encodes_now(p@, WARMUP_SEQUENCE_ID, seq![0u8]),
        packet is Err ==> clock_gave(Err(ClockBeforeEpoch)),
{
    let mut untimed = SerdeMetrics::new();
    let payload: Vec<u8> = vec![0u8];
    assert(payload@ =~= seq![0u8]);
    encode_and_serialize(WARMUP_SEQUENCE_ID, payload, &mut untimed)
}

/// A reader of the TCP stream gets exactly the packets that were sent, in order, each one
/// an encoding of its number and payload. Packets whose length does not fit in 32 bits are
/// left out.
pub proof fn law_tcp_stream_carries_the_packets(
    frames: Seq<Seq<u8>>,
    seq_ids: Seq<u64>,
    payloads: Seq<Seq<u8>>,
)
    requires
        seq_ids.len() == frames.len(),
        payloads.len() == frames.len(),
        forall|i: int|
            0 <= i < frames.len() ==> frames_packet(#[trigger] frames[i], seq_ids[i], payloads[i]),
        forall|i: int|
            0 <= i < frames.len() ==> (#[trigger] frames[i]).len() < LENGTH_SIZE + 0x1_0000_0000,
    ensures
        FrameReader::Length.run(frames.flatten()).1 == FrameReader::Length,
        FrameReader::Length.run(frames.flatten()).0.len() == frames.len(),
        forall|i: int|
            0 <= i < frames.len() ==> encodes_sometime(
                #[trigger] FrameReader::Length.run(frames.flatten()).0[i],
                seq_ids[i],
                payloads[i],
            ),
{
    let packets = packets_in(frames, seq_ids, payloads);
    lemma_packets_in(frames, seq_ids, payloads);
    law_reader_gets_what_was_framed(packets);
}

/// The packets that the frames carry.
pub open spec fn packets_in(
    frames: Seq<Seq<u8>>,
    seq_ids: Seq<u64>,
    payloads: Seq<Seq<u8>>,
) -> Seq<Seq<u8>> {
    Seq::new(
        frames.len(),
        |i: int|
            choose|packet: Seq<u8>|
                frames[i] == framed(packet) && #[trigger] encodes_sometime(
                    packet,
                    seq_ids[i],
                    payloads[i],
                ),
    )
}

/// The packets that the frames carry make up the stream.
pub proof fn lemma_packets_in(frames: Seq<Seq<u8>>, seq_ids: Seq<u64>, payloads: Seq<Seq<u8>>)
    requires
        seq_ids.len() == frames.len(),
        payloads.len() == frames.len(),
        forall|i: int|
            0 <= i < frames.len() ==> frames_packet(#[trigger] frames[i], seq_ids[i], payloads[i]),
        forall|i: int|
            0 <= i < frames.len() ==> (#[trigger] frames[i]).len() < LENGTH_SIZE + 0x1_0000_0000,
    ensures
        ({
            let packets = packets_in(frames, seq_ids, payloads);
            &&& packets.len() == frames.len()
            &&& frames.flatten() == stream_of(packets)
            &&& forall|i: int|
                0 <= i < packets.len() ==> encodes_sometime(
                    #[trigger] packets[i],
                    seq_ids[i],
                    payloads[i],
                ) && packets[i].len() < 0x1_0000_0000
        }),
{
    let packets = packets_in(frames, seq_ids, payloads);
    assert forall|i: int| 0 <= i < packets.len() implies frames[i] == framed(
        #[trigger] packets[i],
    ) && encodes_sometime(packets[i], seq_ids[i], payloads[i]) && packets[i].len()
        < 0x1_0000_0000 by {
        assert(frames_packet(frames[i], seq_ids[i], payloads[i]));
        lemma_le_bytes_len(packets[i].len() % 0x1_0000_0000, 4);
    }
    lemma_flatten_is_stream(frames, packets);
}

proof fn lemma_flatten_is_stream(frames: Seq<Seq<u8>>, packets: Seq<Seq<u8>>)
    requires
        frames.len() == packets.len(),
        forall|i: int| 0 <= i < packets.len() ==> frames[i] == framed(#[trigger] packets[i]),
    ensures
        frames.flatten() == stream_of(packets),
    decreases frames.len(),
{
    if frames.len() > 0 {
        let rest = packets.skip(1);
        assert(frames.drop_first().len() == rest.len());
        assert forall|i: int| 0 <= i < rest.len() implies frames.drop_first()[i] == framed(
            #[trigger] rest[i],
        ) by {
            assert(rest[i] == packets[i + 1]);
        }
        lemma_flatten_is_stream(frames.drop_first(), rest);
        assert(frames[0] == framed(packets[0]));
    }
}

/// The packets of a run over QUIC or TCP are all counted, as long as each one's part of
/// the time is tracked.
pub proof fn law_even_latencies_count_every_packet(total: nat, elapsed_ns: u128)
    requires
        total <= u64::MAX,
        total > 0 ==> elapsed_ns as nat % 0x1_0000_0000_0000_0000 / total
            < UNTRACKED_LATENCY_NS,
    ensures
        even_latencies(total, elapsed_ns).len() == total,
{
    if total > 0 {
        law_repeated_latency(
            (elapsed_ns as nat % 0x1_0000_0000_0000_0000 / total) as u64,
            total,
        );
    }
}

/// The latency of an acknowledgement is what has passed since it was given; where it seems to
/// come from the future, it is zero.
pub proof fn law_ack_latency_is_the_time_passed(ack: BlastAck, now: u64)
    ensures
        now >= ack.received_at_ns ==> ack.received_at_ns + ack_latency(ack, now) == now,
        now < ack.received_at_ns ==> ack_latency(ack, now) == 0,
{
}

/// What is counted for an acknowledgement that comes now is the time from when it was given
/// to a reading of the system clock.
pub proof fn law_counted_latency_is_measured(
    before: Multiset<u64>,
    ack: BlastAck,
    after: Multiset<u64>,
)
    requires
        acked_sometime(before, ack, after),
    ensures
        exists|now: u64, latency_ns: u64|
            #![trigger clock_gave(Ok(now)), offered(before, latency_ns)]
            clock_gave(Ok(now)) && after == offered(before, latency_ns) && (if now
                >= ack.received_at_ns {
                ack.received_at_ns + latency_ns == now
            } else {
                latency_ns == 0
            }),
{
    let now = choose|now: u64|
        after == offered(before, #[trigger] ack_latency(ack, now)) && clock_gave(Ok(now));
    let latency_ns = ack_latency(ack, now);
    assert(clock_gave(Ok(now)) && after == offered(before, latency_ns));
}

/// Each payload counts with its own bytes, and payloads in two lists with those of both.
pub proof fn law_payload_bytes_add_up(
    a: Seq<(u64, Vec<u8>)>,
    b: Seq<(u64, Vec<u8>)>,
    item: (u64, Vec<u8>),
)
    ensures
        payload_bytes(Seq::empty()) == 0,
        payload_bytes(seq![item]) == item.1@.len(),
        payload_bytes(a + b) == payload_bytes(a) + payload_bytes(b),
    decreases b.len(),
{
    let one = seq![item];
    assert(one.drop_last() =~= Seq::empty());
    assert(payload_bytes(one) == payload_bytes(one.drop_last()) + item.1@.len());
    if b.len() > 0 {
        law_payload_bytes_add_up(a, b.drop_last(), item);
        assert((a + b).drop_last() =~= a + b.drop_last());
    } else {
        assert(a + b =~= a);
    }
}

/// Where no acknowledgements come, all packets count in the slot of one and the same
/// latency: the largest that, taken once per packet, does not exceed the time that sending
/// took.
pub proof fn law_even_latencies_share_the_time(total: nat, elapsed_ns: u64, each_ns: u64)
    requires
        0 < total <= u64::MAX,
        each_ns * total <= elapsed_ns < (each_ns + 1) * total,
        each_ns < UNTRACKED_LATENCY_NS,
    ensures
        even_latencies(total, elapsed_ns as u128).count(slot_floor(each_ns)) == total,
        even_latencies(total, elapsed_ns as u128).len() == total,
        even_latencies(0, elapsed_ns as u128).len() == 0,
{
    let e = elapsed_ns as int;
    let t = total as int;
    let q = each_ns as int;
    let r = e - q * t;
    assert(0 <= r < t && e == q * t + r) by (nonlinear_arith)
        requires
            r == e - q * t,
            q * t <= e < (q + 1) * t,
    ;
    vstd::arithmetic::div_mod::lemma_fundamental_div_mod_converse(e, t, q, r);
    law_repeated_latency(each_ns, total);
}

/// A frame that is made now carries, behind its length, a packet that is encoded now.
pub proof fn law_frame_carries_a_packet_of_now(frame: Seq<u8>, seq_id: u64, payload: Seq<u8>)
    requires
        frames_packet_now(frame, seq_id, payload),
    ensures
        encodes_now(frame.skip(4), seq_id, payload),
        frames_packet(frame, seq_id, payload),
{
    let packet = choose|packet: Seq<u8>|
        frame == framed(packet) && #[trigger] encodes_now(packet, seq_id, payload);
    law_frame_layout(packet);
    law_packet_bears_the_reading(packet, seq_id, payload);
}

} // verus!
