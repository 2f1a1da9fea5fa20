//! What becomes of the packets of a whole TCP connection.

use crate::client::{frames_packet, lemma_packets_in, packets_in};
use crate::clock::{clock_gave, ClockBeforeEpoch};
use crate::endian::{
    law_le_roundtrip, le_bytes, le_value, lemma_byte_span_values, lemma_le_bytes_len,
    lemma_le_value_bound,
};
use crate::frame::{framed, stream_of, took_in, ConnectionState, FrameReader, LENGTH_SIZE};
use crate::serde_metrics::one_more;
use crate::tracker::{
    law_sent_packet_is_recorded, recorded, recorded_sometime, AcceptError, ArrivalRecord, Transport,
};
use crate::wire::{decoded_as, encodes, encodes_sometime, lemma_encoded_header, WireError};
use vstd::prelude::*;

verus! {

/// The server takes in `chunks` one after the other, each time as many bytes as its reader
/// wants, from the start of a connection on; after a failure it takes in nothing more.
pub open spec fn serves(
    states: Seq<ConnectionState>,
    chunks: Seq<Seq<u8>>,
    dones: Seq<Result<(), AcceptError>>,
) -> bool {
    &&& states.len() == chunks.len() + 1
    &&& dones.len() == chunks.len()
    &&& states[0].reader == FrameReader::Length
    &&& forall|i: int|
        0 <= i < chunks.len() ==> (#[trigger] chunks[i]).len() == states[i].reader.wants()
            && took_in(states[i], chunks[i], dones[i], states[i + 1])
    &&& forall|i: int| 0 <= i < dones.len() - 1 ==> #[trigger] dones[i] is Ok
}

/// The server is through with a stream of which it has not taken in `rest`: what is left
/// is less than its reader wants, or taking in has failed.
pub open spec fn is_through(
    states: Seq<ConnectionState>,
    dones: Seq<Result<(), AcceptError>>,
    rest: Seq<u8>,
) -> bool {
    rest.len() < states.last().reader.wants() || (dones.len() > 0 && dones.last() is Err)
}

/// The arrivals after each packet in turn came over TCP, the k-th one at the k-th moment,
/// with the size of its payload.
pub open spec fn recorded_in_turn(
    arrivals: Map<u64, ArrivalRecord>,
    seq_ids: Seq<u64>,
    payloads: Seq<Seq<u8>>,
    moments: Seq<u64>,
) -> Map<u64, ArrivalRecord>
    decreases moments.len(),
{
    if moments.len() == 0 {
        arrivals
    } else {
        let k = moments.len() - 1;
        recorded(
            recorded_in_turn(arrivals, seq_ids, payloads, moments.drop_last()),
            Transport::Tcp,
            seq_ids[k],
            payloads[k].len() as u32,
            moments.last(),
        )
    }
}

/// The frames that a client sends, with the numbers and payloads of their packets.
pub struct SentFrames {
    pub frames: Seq<Seq<u8>>,
    pub seq_ids: Seq<u64>,
    pub payloads: Seq<Seq<u8>>,
}

impl SentFrames {
    /// Each frame carries its packet, and neither the packet nor the payload is longer than
    /// 32 bits can say.
    pub open spec fn wf(self) -> bool {
        &&& self.seq_ids.len() == self.frames.len()
        &&& self.payloads.len() == self.frames.len()
        &&& forall|i: int|
            0 <= i < self.frames.len() ==> frames_packet(
                #[trigger] self.frames[i],
                self.seq_ids[i],
                self.payloads[i],
            ) && self.frames[i].len() < LENGTH_SIZE + 0x1_0000_0000
        &&& forall|i: int|
            0 <= i < self.payloads.len() ==> (#[trigger] self.payloads[i]).len() < 0x1_0000_0000
    }
}

/// Between two states the packets that were sent, and nothing else, went on record in turn,
/// each at a moment that the system clock gave and with one timing.
pub open spec fn on_record(
    sent: SentFrames,
    before: ConnectionState,
    after: ConnectionState,
) -> bool {
    &&& after.timings.len() == before.timings.len() + sent.frames.len()
    &&& exists|moments: Seq<u64>|
        moments.len() == sent.frames.len() && after.arrivals == #[trigger] recorded_in_turn(
            before.arrivals,
            sent.seq_ids,
            sent.payloads,
            moments,
        ) && forall|i: int| 0 <= i < moments.len() ==> clock_gave(Ok(#[trigger] moments[i]))
}

/// The clock always gave a time.
pub open spec fn on_time(dones: Seq<Result<(), AcceptError>>) -> bool {
    forall|i: int|
        0 <= i < dones.len() ==> #[trigger] dones[i] != Err::<(), AcceptError>(
            AcceptError::Clock(ClockBeforeEpoch),
        )
}

/// Bytes that are not enough for a length, or not enough for the message that the length
/// announces.
pub open spec fn is_cut(tail: Seq<u8>) -> bool {
    tail.len() < LENGTH_SIZE || tail.len() - LENGTH_SIZE < le_value(tail.take(LENGTH_SIZE as int))
}

/// The server has taken in the first `k` packets: two chunks each, all of them with
/// success, and what follows on the stream are the other packets and then `tail`.
spec fn progress(
    states: Seq<ConnectionState>,
    chunks: Seq<Seq<u8>>,
    dones: Seq<Result<(), AcceptError>>,
    rest: Seq<u8>,
    packets: Seq<Seq<u8>>,
    tail: Seq<u8>,
    k: int,
) -> bool {
    &&& chunks.len() >= 2 * k
    &&& forall|i: int| 0 <= i < 2 * k ==> #[trigger] dones[i] is Ok
    &&& states[2 * k].reader == FrameReader::Length
    &&& chunks.skip(2 * k).flatten() + rest == stream_of(packets.skip(k)) + tail
}

/// The first of the chunks from the `j`-th on comes first on the stream.
proof fn lemma_next_chunk(chunks: Seq<Seq<u8>>, j: int, rest: Seq<u8>)
    requires
        0 <= j < chunks.len(),
    ensures
        ({
            let stream = chunks.skip(j).flatten() + rest;
            &&& stream.len() >= chunks[j].len()
            &&& stream.take(chunks[j].len() as int) == chunks[j]
            &&& stream.skip(chunks[j].len() as int) == chunks.skip(j + 1).flatten() + rest
        }),
{
    let left = chunks.skip(j);
    assert(left.drop_first() =~= chunks.skip(j + 1));
    assert(left.flatten() == chunks[j] + chunks.skip(j + 1).flatten());
    let stream = left.flatten() + rest;
    assert(stream.take(chunks[j].len() as int) =~= chunks[j]);
    assert(stream.skip(chunks[j].len() as int) =~= chunks.skip(j + 1).flatten() + rest);
}

/// The server takes in the two chunks of a frame that comes next.
proof fn lemma_next_frame(
    states: Seq<ConnectionState>,
    chunks: Seq<Seq<u8>>,
    dones: Seq<Result<(), AcceptError>>,
    rest: Seq<u8>,
    message: Seq<u8>,
    after: Seq<u8>,
    j: int,
)
    requires
        serves(states, chunks, dones),
        is_through(states, dones, rest),
        0 <= j <= chunks.len(),
        forall|i: int| 0 <= i < j ==> #[trigger] dones[i] is Ok,
        states[j].reader == FrameReader::Length,
        message.len() < 0x1_0000_0000,
        chunks.skip(j).flatten() + rest == framed(message) + after,
    ensures
        chunks.len() >= j + 2,
        dones[j] is Ok,
        chunks[j + 1] == message,
        chunks.skip(j + 2).flatten() + rest == after,
        states[j + 1].reader is Body,
        states[j + 1].arrivals == states[j].arrivals,
        states[j + 1].timings == states[j].timings,
        took_in(states[j + 1], message, dones[j + 1], states[j + 2]),
{
    let prefix = le_bytes(message.len(), 4);
    lemma_le_bytes_len(message.len(), 4);
    lemma_byte_span_values();
    law_le_roundtrip(message.len(), 4);
    let stream = framed(message) + after;
    if chunks.len() == j {
        assert(chunks.skip(j).flatten() =~= Seq::<u8>::empty());
        assert(rest =~= stream);
        if dones.len() > 0 {
            assert(dones[j - 1] is Ok);
        }
        assert(false);
    }
    lemma_next_chunk(chunks, j, rest);
    assert(took_in(states[j], chunks[j], dones[j], states[j + 1]));
    assert(stream.take(4) =~= prefix);
    assert(states[j + 1].reader == (FrameReader::Body { len: message.len() as usize }));
    let body = stream.skip(4);
    assert(body =~= message + after);
    if chunks.len() == j + 1 {
        assert(chunks.skip(j + 1).flatten() =~= Seq::<u8>::empty());
        assert(rest =~= body);
        assert(dones.last() == dones[j]);
        assert(false);
    }
    lemma_next_chunk(chunks, j + 1, rest);
    assert(chunks[j + 1].len() == states[j + 1].reader.wants());
    assert(body.take(message.len() as int) =~= message);
    assert(body.skip(message.len() as int) =~= after);
    assert(took_in(states[j + 1], chunks[j + 1], dones[j + 1], states[j + 2]));
}

/// The server takes in the next packet, unless the clock fails.
proof fn lemma_next_packet(
    states: Seq<ConnectionState>,
    chunks: Seq<Seq<u8>>,
    dones: Seq<Result<(), AcceptError>>,
    rest: Seq<u8>,
    packets: Seq<Seq<u8>>,
    tail: Seq<u8>,
    seq_id: u64,
    payload: Seq<u8>,
    k: int,
)
    requires
        serves(states, chunks, dones),
        is_through(states, dones, rest),
        on_time(dones),
        0 <= k < packets.len(),
        packets[k].len() < 0x1_0000_0000,
        encodes_sometime(packets[k], seq_id, payload),
        payload.len() < 0x1_0000_0000,
        progress(states, chunks, dones, rest, packets, tail, k),
    ensures
        progress(states, chunks, dones, rest, packets, tail, k + 1),
        recorded_sometime(
            states[2 * k].arrivals,
            Transport::Tcp,
            seq_id,
            payload.len() as u32,
            states[2 * k + 2].arrivals,
        ),
        one_more(states[2 * k].timings, states[2 * k + 2].timings),
{
    let packet = packets[k];
    let j = 2 * k;
    let left = packets.skip(k);
    assert(left[0] == packet);
    assert(left.skip(1) =~= packets.skip(k + 1));
    let after = stream_of(packets.skip(k + 1)) + tail;
    assert(stream_of(left) + tail =~= framed(packet) + after);
    lemma_next_frame(states, chunks, dones, rest, packet, after, j);
    let done = dones[j + 1];
    law_sent_packet_is_recorded(
        packet,
        seq_id,
        payload,
        Transport::Tcp,
        states[j + 1].arrivals,
        states[j + 1].timings,
        done,
        states[j + 2].arrivals,
        states[j + 2].timings,
    );
    assert(done is Ok);
    let timestamp_ns = choose|timestamp_ns: u64| #[trigger]
        encodes(packet, seq_id, timestamp_ns, payload);
    lemma_encoded_header(packet, seq_id, timestamp_ns, payload);
    assert(2 * (k + 1) == j + 2);
}

/// Taking in packet by packet comes to the end of the first `k` packets.
proof fn lemma_progress(
    states: Seq<ConnectionState>,
    chunks: Seq<Seq<u8>>,
    dones: Seq<Result<(), AcceptError>>,
    rest: Seq<u8>,
    packets: Seq<Seq<u8>>,
    tail: Seq<u8>,
    seq_ids: Seq<u64>,
    payloads: Seq<Seq<u8>>,
    k: int,
) -> (moments: Seq<u64>)
    requires
        serves(states, chunks, dones),
        is_through(states, dones, rest),
        on_time(dones),
        seq_ids.len() == packets.len(),
        payloads.len() == packets.len(),
        forall|i: int|
            0 <= i < packets.len() ==> encodes_sometime(
                #[trigger] packets[i],
                seq_ids[i],
                payloads[i],
            ) && packets[i].len() < 0x1_0000_0000,
        forall|i: int| 0 <= i < payloads.len() ==> (#[trigger] payloads[i]).len() < 0x1_0000_0000,
        chunks.flatten() + rest == stream_of(packets) + tail,
        0 <= k <= packets.len(),
    ensures
        progress(states, chunks, dones, rest, packets, tail, k),
        moments.len() == k,
        forall|i: int| 0 <= i < k ==> clock_gave(Ok(#[trigger] moments[i])),
        states[2 * k].arrivals == recorded_in_turn(states[0].arrivals, seq_ids, payloads, moments),
        states[2 * k].timings.len() == states[0].timings.len() + k,
    decreases k,
{
    if k == 0 {
        assert(chunks.skip(0) =~= chunks);
        assert(packets.skip(0) =~= packets);
        Seq::empty()
    } else {
        let j = k - 1;
        let before = lemma_progress(
            states,
            chunks,
            dones,
            rest,
            packets,
            tail,
            seq_ids,
            payloads,
            j,
        );
        assert(encodes_sometime(packets[j], seq_ids[j], payloads[j]));
        lemma_next_packet(states, chunks, dones, rest, packets, tail, seq_ids[j], payloads[j], j);
        let now = choose|now: u64|
            states[2 * j + 2].arrivals == #[trigger] recorded(
                states[2 * j].arrivals,
                Transport::Tcp,
                seq_ids[j],
                payloads[j].len() as u32,
                now,
            ) && clock_gave(Ok(now));
        let moments = before.push(now);
        assert(moments.drop_last() =~= before);
        moments
    }
}

/// The server is done with the packets of a client that come first on a connection: their
/// arrivals are on record, two chunks were taken in for each, and `tail` is what follows.
proof fn lemma_packets_recorded(
    sent: SentFrames,
    tail: Seq<u8>,
    states: Seq<ConnectionState>,
    chunks: Seq<Seq<u8>>,
    dones: Seq<Result<(), AcceptError>>,
    rest: Seq<u8>,
)
    requires
        sent.wf(),
        serves(states, chunks, dones),
        is_through(states, dones, rest),
        on_time(dones),
        chunks.flatten() + rest == sent.frames.flatten() + tail,
    ensures
        ({
            let j = 2 * sent.frames.len() as int;
            &&& chunks.len() >= j
            &&& forall|i: int| 0 <= i < j ==> #[trigger] dones[i] is Ok
            &&& states[j].reader == FrameReader::Length
            &&& chunks.skip(j).flatten() + rest == tail
            &&& on_record(sent, states[0], states[j])
        }),
{
    let packets = packets_in(sent.frames, sent.seq_ids, sent.payloads);
    lemma_packets_in(sent.frames, sent.seq_ids, sent.payloads);
    let n = packets.len() as int;
    let moments = lemma_progress(
        states,
        chunks,
        dones,
        rest,
        packets,
        tail,
        sent.seq_ids,
        sent.payloads,
        n,
    );
    assert(packets.skip(n) =~= Seq::empty());
    assert(stream_of(packets.skip(n)) + tail =~= tail);
    assert(states[2 * n].arrivals == recorded_in_turn(
        states[0].arrivals,
        sent.seq_ids,
        sent.payloads,
        moments,
    ));
}

/// A connection over which exactly the packets of a client come is served to its clean end,
/// and each packet's arrival over TCP goes on record, one after the other, under its number
/// and with the size of its payload before any compression; nothing else is recorded, and
/// one timing per packet is added. Packets whose length does not fit in 32 bits are left
/// out, and so are payloads of that size, and clocks that give no time.
pub proof fn law_connection_records_what_was_sent(
    sent: SentFrames,
    states: Seq<ConnectionState>,
    chunks: Seq<Seq<u8>>,
    dones: Seq<Result<(), AcceptError>>,
    rest: Seq<u8>,
)
    requires
        sent.wf(),
        serves(states, chunks, dones),
        is_through(states, dones, rest),
        on_time(dones),
        chunks.flatten() + rest == sent.frames.flatten(),
    ensures
        rest.len() == 0,
        states.last().reader == FrameReader::Length,
        forall|i: int| 0 <= i < dones.len() ==> #[trigger] dones[i] is Ok,
        on_record(sent, states[0], states.last()),
{
    let tail = Seq::<u8>::empty();
    assert(sent.frames.flatten() + tail =~= sent.frames.flatten());
    law_cut_connection(sent, tail, states, chunks, dones, rest);
}

/// Where a connection breaks off inside a frame, the packets before it are all on record,
/// one after the other, and nothing of the frame is: the connection ends cleanly where the
/// break is inside the frame's length, and else the server knows how long the message should
/// have been. What the law on whole connections leaves out is left out here too.
pub proof fn law_cut_connection(
    sent: SentFrames,
    tail: Seq<u8>,
    states: Seq<ConnectionState>,
    chunks: Seq<Seq<u8>>,
    dones: Seq<Result<(), AcceptError>>,
    rest: Seq<u8>,
)
    requires
        sent.wf(),
        is_cut(tail),
        serves(states, chunks, dones),
        is_through(states, dones, rest),
        on_time(dones),
        chunks.flatten() + rest == sent.frames.flatten() + tail,
    ensures
        forall|i: int| 0 <= i < dones.len() ==> #[trigger] dones[i] is Ok,
        on_record(sent, states[0], states.last()),
        tail.len() < LENGTH_SIZE ==> rest == tail && states.last().reader == FrameReader::Length,
        tail.len() >= LENGTH_SIZE ==> rest == tail.skip(LENGTH_SIZE as int)
            && states.last().reader == (FrameReader::Body {
            len: le_value(tail.take(LENGTH_SIZE as int)) as usize,
        }),
{
    lemma_packets_recorded(sent, tail, states, chunks, dones, rest);
    let j = 2 * sent.frames.len() as int;
    if chunks.len() == j {
        assert(chunks.skip(j).flatten() =~= Seq::<u8>::empty());
        assert(rest =~= tail);
        if dones.len() > 0 {
            assert(dones[j - 1] is Ok);
        }
    } else {
        lemma_next_chunk(chunks, j, rest);
        assert(took_in(states[j], chunks[j], dones[j], states[j + 1]));
        assert(chunks[j] == tail.take(4));
        lemma_byte_span_values();
        lemma_le_value_bound(chunks[j]);
        if chunks.len() > j + 1 {
            lemma_next_chunk(chunks, j + 1, rest);
            assert(chunks[j + 1].len() == states[j + 1].reader.wants());
            assert(false);
        }
        assert(chunks.skip(j + 1).flatten() =~= Seq::<u8>::empty());
        assert(rest =~= tail.skip(4));
    }
}

/// Where a message comes that is no packet, the packets before it are all on record, one
/// after the other, and the connection ends with the reason that decoding gives: neither
/// the message nor anything after it is recorded or timed. What the law on whole connections
/// leaves out is left out here too.
pub proof fn law_refused_connection(
    sent: SentFrames,
    refused: Seq<u8>,
    reason: WireError,
    more: Seq<u8>,
    states: Seq<ConnectionState>,
    chunks: Seq<Seq<u8>>,
    dones: Seq<Result<(), AcceptError>>,
    rest: Seq<u8>,
)
    requires
        sent.wf(),
        decoded_as(refused) == Err::<(u64, u32), WireError>(reason),
        refused.len() < 0x1_0000_0000,
        serves(states, chunks, dones),
        is_through(states, dones, rest),
        on_time(dones),
        chunks.flatten() + rest == sent.frames.flatten() + (framed(refused) + more),
    ensures
        rest == more,
        dones.len() == 2 * sent.frames.len() + 2,
        forall|i: int| 0 <= i < dones.len() - 1 ==> #[trigger] dones[i] is Ok,
        dones.last() == Err::<(), AcceptError>(AcceptError::Wire(reason)),
        on_record(sent, states[0], states.last()),
{
    let tail = framed(refused) + more;
    lemma_packets_recorded(sent, tail, states, chunks, dones, rest);
    let j = 2 * sent.frames.len() as int;
    lemma_next_frame(states, chunks, dones, rest, refused, more, j);
    assert(dones[j + 1] is Err);
    assert(chunks.len() == j + 2);
    assert(chunks.skip(j + 2).flatten() =~= Seq::<u8>::empty());
    assert(rest =~= more);
}

/// Where packets with different numbers, none of them on record yet, are recorded in turn,
/// each of them is then on record with its own moment and size, and every other packet is as
/// it was.
pub proof fn law_recorded_in_turn(
    arrivals: Map<u64, ArrivalRecord>,
    seq_ids: Seq<u64>,
    payloads: Seq<Seq<u8>>,
    moments: Seq<u64>,
    k: int,
    other: u64,
)
    requires
        moments.len() <= seq_ids.len(),
        payloads.len() == seq_ids.len(),
        forall|i: int, j: int|
            0 <= i < j < seq_ids.len() ==> #[trigger] seq_ids[i] != #[trigger] seq_ids[j],
        forall|i: int| 0 <= i < seq_ids.len() ==> !arrivals.contains_key(#[trigger] seq_ids[i]),
        0 <= k < moments.len() ==> payloads[k].len() < 0x1_0000_0000,
        forall|i: int| 0 <= i < moments.len() ==> #[trigger] seq_ids[i] != other,
    ensures
        ({
            let after = recorded_in_turn(arrivals, seq_ids, payloads, moments);
            &&& 0 <= k < moments.len() ==> after.contains_key(seq_ids[k])
                && after[seq_ids[k]].tcp_arrival_ns == Some(moments[k])
                && after[seq_ids[k]].payload_size == payloads[k].len()
                && after[seq_ids[k]].grpc_arrival_ns is None
                && after[seq_ids[k]].quic_arrival_ns is None
            &&& after.contains_key(other) == arrivals.contains_key(other)
            &&& after[other] == arrivals[other]
        }),
    decreases moments.len(),
{
    if moments.len() > 0 {
        let last = moments.len() - 1;
        let rest = moments.drop_last();
        law_recorded_in_turn(arrivals, seq_ids, payloads, rest, k, other);
        law_recorded_in_turn(arrivals, seq_ids, payloads, rest, k, seq_ids[last]);
        if 0 <= k < last {
            assert(rest[k] == moments[k]);
            assert(seq_ids[k] != seq_ids[last]);
        }
    }
}

} // verus!
