//! When each packet arrived, by transport, on the server.

use crate::clock::{
    clock_gave, clock_showed, law_timestamp_is_the_reading, now_ns, timed, ClockBeforeEpoch,
};
use crate::endian::le_value;
use crate::messages::{BlastAck, BlastPacket};
use crate::serde_metrics::{one_more, stats_of, SerdeMetrics, SerdeStats};
use crate::wire::{
    decoded_as, deserialize_packet, encodes, encodes_sometime, lemma_encoded_header, WireError,
};
use dashmap::DashMap;
use vstd::prelude::*;

verus! {

/// What is known of one packet's arrivals: the latest moment it came over each
/// transport, and its size as first announced.
#[derive(Clone, Copy, Debug, PartialEq, Eq, Structural)]
pub struct ArrivalRecord {
    pub grpc_arrival_ns: Option<u64>,
    pub quic_arrival_ns: Option<u64>,
    pub tcp_arrival_ns: Option<u64>,
    pub payload_size: u32,
}

/// The transports under comparison.
#[derive(Clone, Copy, Debug, PartialEq, Eq, Structural)]
pub enum Transport {
    Grpc,
    Quic,
    Tcp,
}

/// Why a message was not accounted for.
#[derive(Clone, Copy, Debug, PartialEq, Eq, Structural)]
pub enum AcceptError {
    /// The message is no packet.
    Wire(WireError),
    /// The packet has no arrival time.
    Clock(ClockBeforeEpoch),
}

/// A concurrent map of `dashmap`.
#[verifier::external_type_specification]
#[verifier::external_body]
#[verifier::reject_recursive_types(K)]
#[verifier::reject_recursive_types(V)]
#[verifier::reject_recursive_types(S)]
pub struct ExDashMap<K, V, S>(DashMap<K, V, S>);

/// The entries that the map holds.
pub uninterp spec fn map_entries(map: DashMap<u64, ArrivalRecord>) -> Map<u64, ArrivalRecord>;

/// Calls `DashMap::new`: an empty map.
#[verifier::external_body]
fn map_new() -> (map: DashMap<u64, ArrivalRecord>)
    ensures
        map_entries(map) == (Map::<u64, ArrivalRecord>::empty()),
{
    DashMap::new()
}

/// Calls `DashMap::get`: a copy of the entry under the key, if there is one.
#[verifier::external_body]
fn map_get(map: &DashMap<u64, ArrivalRecord>, key: u64) -> (found: Option<ArrivalRecord>)
    ensures
        found == map_entries(*map).get(key),
{
    match map.get(&key) {
        Some(entry) => Some(*entry.value()),
        None => None,
    }
}

/// Calls `DashMap::insert`: the key leads to the value, and every other key to what it
/// led to before. The map is borrowed mutably, so nobody else changes it meanwhile.
#[verifier::external_body]
fn map_insert(map: &mut DashMap<u64, ArrivalRecord>, key: u64, value: ArrivalRecord)
    ensures
        map_entries(*final(map)) == map_entries(*old(map)).insert(key, value),
{
    map.insert(key, value);
}

/// Calls `DashMap::iter`: each entry comes out once, in no particular order.
#[verifier::external_body]
fn map_items(map: &DashMap<u64, ArrivalRecord>) -> (items: Vec<(u64, ArrivalRecord)>)
    ensures
        lists_entries(items@, map_entries(*map)),
{
    map.iter().map(|entry| (*entry.key(), *entry.value())).collect()
}

/// Calls `DashMap::clear`: no entry is left. The map is borrowed mutably, so nobody
/// else changes it meanwhile.
#[verifier::external_body]
fn map_clear(map: &mut DashMap<u64, ArrivalRecord>)
    ensures
        map_entries(*final(map)) == (Map::<u64, ArrivalRecord>::empty()),
{
    map.clear();
}

/// `items` holds each entry of `entries` exactly once.
pub open spec fn lists_entries(
    items: Seq<(u64, ArrivalRecord)>,
    entries: Map<u64, ArrivalRecord>,
) -> bool {
    &&& forall|i: int|
        0 <= i < items.len() ==> entries.contains_key(#[trigger] items[i].0)
            && entries[items[i].0] == items[i].1
    &&& forall|key: u64| #[trigger]
        entries.contains_key(key) ==> exists|i: int|
            0 <= i < items.len() && #[trigger] items[i].0 == key
    &&& forall|i: int, j: int|
        0 <= i < j < items.len() ==> (#[trigger] items[i]).0 != (#[trigger] items[j]).0
}

/// A record with the arrival over `transport` set to `now`.
pub open spec fn arrived(record: ArrivalRecord, transport: Transport, now: u64) -> ArrivalRecord {
    match transport {
        Transport::Grpc => ArrivalRecord { grpc_arrival_ns: Some(now), ..record },
        Transport::Quic => ArrivalRecord { quic_arrival_ns: Some(now), ..record },
        Transport::Tcp => ArrivalRecord { tcp_arrival_ns: Some(now), ..record },
    }
}

/// A record of a packet that has not arrived yet.
pub open spec fn awaited(payload_size: u32) -> ArrivalRecord {
    ArrivalRecord {
        grpc_arrival_ns: None,
        quic_arrival_ns: None,
        tcp_arrival_ns: None,
        payload_size,
    }
}

/// The arrivals after a packet came over `transport` at `now`: the packet's record, or
/// a fresh one with the size announced now, has that arrival set.
pub open spec fn recorded(
    arrivals: Map<u64, ArrivalRecord>,
    transport: Transport,
    seq_id: u64,
    payload_size: u32,
    now: u64,
) -> Map<u64, ArrivalRecord> {
    let before = if arrivals.contains_key(seq_id) {
        arrivals[seq_id]
    } else {
        awaited(payload_size)
    };
    arrivals.insert(seq_id, arrived(before, transport, now))
}

/// The arrivals after a packet came over `transport` at a moment that the system clock gave.
pub open spec fn recorded_sometime(
    before: Map<u64, ArrivalRecord>,
    transport: Transport,
    seq_id: u64,
    payload_size: u32,
    after: Map<u64, ArrivalRecord>,
) -> bool {
    exists|now: u64|
        after == #[trigger] recorded(before, transport, seq_id, payload_size, now) && clock_gave(
            Ok(now),
        )
}

impl ArrivalRecord {
    /// Sets the arrival over `transport`.
    pub fn arrive(&mut self, transport: Transport, now: u64)
        ensures
            *final(self) == arrived(*old(self), transport, now),
    {
        match transport {
            Transport::Grpc => {
                self.grpc_arrival_ns = Some(now);
            },
            Transport::Quic => {
                self.quic_arrival_ns = Some(now);
            },
            Transport::Tcp => {
                self.tcp_arrival_ns = Some(now);
            },
        }
    }
}

/// The answer to a packet that was received at `now`.
pub fn acknowledge(packet: &BlastPacket, now: u64) -> (ack: BlastAck)
    ensures
        ack == (BlastAck { sequence_id: packet.sequence_id, received_at_ns: now }),
{
    BlastAck { sequence_id: packet.sequence_id, received_at_ns: now }
}

/// The answer to a packet under a time read off the clock, or that there was none.
pub fn answer(packet: &BlastPacket, reading: Result<u64, ClockBeforeEpoch>) -> (ack: Result<
    BlastAck,
    ClockBeforeEpoch,
>)
    ensures
        match reading {
            Ok(now) => ack == Ok::<BlastAck, ClockBeforeEpoch>(
                BlastAck { sequence_id: packet.sequence_id, received_at_ns: now },
            ),
            Err(e) => ack == Err::<BlastAck, ClockBeforeEpoch>(e),
        },
{
    match reading {
        Ok(now) => Ok(acknowledge(packet, now)),
        Err(e) => Err(e),
    }
}

/// What taking in a message does: one that is no packet is refused for the reason that
/// decoding gives and changes nothing; a packet is timed, and then its arrival recorded
/// unless the clock gives no time.
pub open spec fn accepted(
    bytes: Seq<u8>,
    transport: Transport,
    before: Map<u64, ArrivalRecord>,
    timings_before: Seq<u64>,
    done: Result<(), AcceptError>,
    after: Map<u64, ArrivalRecord>,
    timings_after: Seq<u64>,
) -> bool {
    match decoded_as(bytes) {
        Ok(header) => {
            &&& one_more(timings_before, timings_after)
            &&& timed(timings_after.last())
            &&& match done {
                Ok(_) => recorded_sometime(before, transport, header.0, header.1, after),
                Err(e) => e == AcceptError::Clock(ClockBeforeEpoch) && after == before
                    && clock_gave(Err(ClockBeforeEpoch)),
            }
        },
        Err(e) => {
            &&& done == Err::<(), AcceptError>(AcceptError::Wire(e))
            &&& after == before
            &&& timings_after == timings_before
        },
    }
}

/// Arrivals by sequence number, and how long the server took to decode packets.
pub struct ArrivalTracker {
    records: DashMap<u64, ArrivalRecord>,
    quic_decode_metrics: SerdeMetrics,
    tcp_decode_metrics: SerdeMetrics,
}

impl ArrivalTracker {
    /// The arrivals recorded so far, by sequence number.
    pub closed spec fn view(&self) -> Map<u64, ArrivalRecord> {
        map_entries(self.records)
    }

    /// The timings of decoding packets that came over QUIC.
    pub closed spec fn quic_decode(&self) -> Seq<u64> {
        self.quic_decode_metrics@
    }

    /// The timings of decoding packets that came over TCP.
    pub closed spec fn tcp_decode(&self) -> Seq<u64> {
        self.tcp_decode_metrics@
    }

    /// No arrivals and no timings.
    pub fn new() -> (tracker: Self)
        ensures
            tracker@ == Map::<u64, ArrivalRecord>::empty(),
            tracker.quic_decode() == Seq::<u64>::empty(),
            tracker.tcp_decode() == Seq::<u64>::empty(),
    {
        ArrivalTracker {
            records: map_new(),
            quic_decode_metrics: SerdeMetrics::new(),
            tcp_decode_metrics: SerdeMetrics::new(),
        }
    }

    /// Records that a packet came over `transport` at `now`. The size counts only when
    /// the packet is new.
    pub fn record_at(&mut self, transport: Transport, seq_id: u64, payload_size: u32, now: u64)
        ensures
            final(self)@ == recorded(old(self)@, transport, seq_id, payload_size, now),
            final(self).quic_decode() == old(self).quic_decode(),
            final(self).tcp_decode() == old(self).tcp_decode(),
    {
        let mut record = match map_get(&self.records, seq_id) {
            Some(record) => record,
            None => ArrivalRecord {
                grpc_arrival_ns: None,
                quic_arrival_ns: None,
                tcp_arrival_ns: None,
                payload_size,
            },
        };
        record.arrive(transport, now);
        map_insert(&mut self.records, seq_id, record);
    }

    /// Records that a packet came over `transport` at a time read off the clock. Without
    /// one, nothing is recorded.
    pub fn record_reading(
        &mut self,
        transport: Transport,
        seq_id: u64,
        payload_size: u32,
        reading: Result<u64, ClockBeforeEpoch>,
    ) -> (done: Result<(), ClockBeforeEpoch>)
        ensures
            match reading {
                Ok(now) => done is Ok && final(self)@ == recorded(
                    old(self)@,
                    transport,
                    seq_id,
                    payload_size,
                    now,
                ),
                Err(e) => done == Err::<(), ClockBeforeEpoch>(e) && final(self)@ == old(self)@,
            },
            final(self).quic_decode() == old(self).quic_decode(),
            final(self).tcp_decode() == old(self).tcp_decode(),
    {
        match reading {
            Ok(now) => {
                self.record_at(transport, seq_id, payload_size, now);
                Ok(())
            },
            Err(e) => Err(e),
        }
    }

    /// Records that a packet came over `transport` now. It fails only where the system
    /// clock shows a moment before the Unix epoch, and then records nothing;
    /// [`ArrivalTracker::record_reading`] says what comes of each reading.
    pub fn record(&mut self, transport: Transport, seq_id: u64, payload_size: u32) -> (done: Result<
        (),
        ClockBeforeEpoch,
    >)
        ensures
            done is Ok ==> recorded_sometime(
                old(self)@,
                transport,
                seq_id,
                payload_size,
                final(self)@,
            ),
            done is Err ==> final(self)@ == old(self)@,
            done is Err ==> clock_gave(Err(ClockBeforeEpoch)),
            final(self).quic_decode() == old(self).quic_decode(),
            final(self).tcp_decode() == old(self).tcp_decode(),
    {
        let reading = now_ns();
        let done = self.record_reading(transport, seq_id, payload_size, reading);
        proof {
            if let Ok(now) = reading {
                assert(clock_gave(Ok(now)));
                assert(recorded_sometime(old(self)@, transport, seq_id, payload_size, self@));
            }
        }
        done
    }

    /// Each packet that arrived, with its record, in no particular order.
    pub fn arrivals(&self) -> (arrivals: Vec<(u64, ArrivalRecord)>)
        ensures
            lists_entries(arrivals@, self@),
    {
        map_items(&self.records)
    }

    /// Takes in a packet that came over gRPC now, and answers it with a second reading
    /// of the clock. It fails only where a reading is before the Unix epoch; the arrival
    /// is on record unless that was the first reading. What comes of each reading is said by
    /// [`ArrivalTracker::record_reading`] and [`answer`].
    pub fn accept_grpc(&mut self, packet: &BlastPacket) -> (ack: Result<BlastAck, ClockBeforeEpoch>)
        ensures
            ack matches Ok(a) ==> a.sequence_id == packet.sequence_id,
            ack matches Ok(a) ==> clock_gave(Ok(a.received_at_ns)),
            ack is Err ==> clock_gave(Err(ClockBeforeEpoch)),
            ack is Ok ==> recorded_sometime(
                old(self)@,
                Transport::Grpc,
                packet.sequence_id,
                packet.payload_size,
                final(self)@,
            ),
            ack is Err ==> final(self)@ == old(self)@ || recorded_sometime(
                old(self)@,
                Transport::Grpc,
                packet.sequence_id,
                packet.payload_size,
                final(self)@,
            ),
            final(self).quic_decode() == old(self).quic_decode(),
            final(self).tcp_decode() == old(self).tcp_decode(),
    {
        match self.record(Transport::Grpc, packet.sequence_id, packet.payload_size) {
            Ok(_) => {},
            Err(e) => {
                return Err(e);
            },
        }
        answer(packet, now_ns())
    }

    /// Takes in a message that came over QUIC now: decodes it and records the arrival.
    /// A message that is no packet changes nothing.
    pub fn accept_quic(&mut self, buf: &[u8]) -> (done: Result<(), AcceptError>)
        ensures
            accepted(
                buf@,
                Transport::Quic,
                old(self)@,
                old(self).quic_decode(),
                done,
                final(self)@,
                final(self).quic_decode(),
            ),
            final(self).tcp_decode() == old(self).tcp_decode(),
    {
        match deserialize_packet(buf, &mut self.quic_decode_metrics) {
            Ok(packet) => {
                match self.record(Transport::Quic, packet.sequence_id, packet.payload_size) {
                    Ok(_) => Ok(()),
                    Err(e) => Err(AcceptError::Clock(e)),
                }
            },
            Err(e) => Err(AcceptError::Wire(e)),
        }
    }

    /// Takes in a message that came over TCP now: decodes it and records the arrival.
    /// A message that is no packet changes nothing.
    pub fn accept_tcp(&mut self, buf: &[u8]) -> (done: Result<(), AcceptError>)
        ensures
            accepted(
                buf@,
                Transport::Tcp,
                old(self)@,
                old(self).tcp_decode(),
                done,
                final(self)@,
                final(self).tcp_decode(),
            ),
            final(self).quic_decode() == old(self).quic_decode(),
    {
        match deserialize_packet(buf, &mut self.tcp_decode_metrics) {
            Ok(packet) => {
                match self.record(Transport::Tcp, packet.sequence_id, packet.payload_size) {
                    Ok(_) => Ok(()),
                    Err(e) => Err(AcceptError::Clock(e)),
                }
            },
            Err(e) => Err(AcceptError::Wire(e)),
        }
    }

    /// How long packets that came over QUIC took to decode.
    pub fn quic_decode_stats(&self) -> (stats: SerdeStats)
        ensures
            stats == stats_of(self.quic_decode()),
    {
        self.quic_decode_metrics.stats()
    }

    /// How long packets that came over TCP took to decode.
    pub fn tcp_decode_stats(&self) -> (stats: SerdeStats)
        ensures
            stats == stats_of(self.tcp_decode()),
    {
        self.tcp_decode_metrics.stats()
    }

    /// Forgets the arrivals. The decode timings stay.
    pub fn clear(&mut self)
        ensures
            final(self)@ == Map::<u64, ArrivalRecord>::empty(),
            final(self).quic_decode() == old(self).quic_decode(),
            final(self).tcp_decode() == old(self).tcp_decode(),
    {
        map_clear(&mut self.records);
    }
}

/// A packet came over at least one transport.
pub open spec fn has_arrival(record: ArrivalRecord) -> bool {
    record.grpc_arrival_ns is Some || record.quic_arrival_ns is Some || record.tcp_arrival_ns is Some
}

/// Every record is of a packet that came over at least one transport.
pub open spec fn all_have_arrived(arrivals: Map<u64, ArrivalRecord>) -> bool {
    forall|seq_id: u64| #[trigger]
        arrivals.contains_key(seq_id) ==> has_arrival(arrivals[seq_id])
}

/// Nothing but an arrival puts a packet on record: a new tracker has no packet that did
/// not arrive, and recording an arrival adds none.
pub proof fn law_only_arrived_packets_are_on_record(
    arrivals: Map<u64, ArrivalRecord>,
    transport: Transport,
    seq_id: u64,
    payload_size: u32,
    now: u64,
)
    ensures
        all_have_arrived(Map::empty()),
        all_have_arrived(arrivals) ==> all_have_arrived(
            recorded(arrivals, transport, seq_id, payload_size, now),
        ),
{
}

/// The size announced when a packet first arrives stays, whatever later arrivals
/// announce.
pub proof fn law_first_announced_size_stays(
    arrivals: Map<u64, ArrivalRecord>,
    seq_id: u64,
    first: Transport,
    first_size: u32,
    first_ns: u64,
    second: Transport,
    second_size: u32,
    second_ns: u64,
)
    ensures
        ({
            let once = recorded(arrivals, first, seq_id, first_size, first_ns);
            let twice = recorded(once, second, seq_id, second_size, second_ns);
            twice[seq_id].payload_size == once[seq_id].payload_size && (!arrivals.contains_key(
                seq_id,
            ) ==> twice[seq_id].payload_size == first_size)
        }),
{
}

/// Where a packet comes over the same transport again, the later moment counts, as if
/// the packet had come then the first time.
pub proof fn law_later_arrival_replaces_earlier(
    arrivals: Map<u64, ArrivalRecord>,
    transport: Transport,
    seq_id: u64,
    first_size: u32,
    first_ns: u64,
    second_size: u32,
    second_ns: u64,
)
    ensures
        recorded(
            recorded(arrivals, transport, seq_id, first_size, first_ns),
            transport,
            seq_id,
            second_size,
            second_ns,
        ) == recorded(arrivals, transport, seq_id, first_size, second_ns),
{
    assert(recorded(
        recorded(arrivals, transport, seq_id, first_size, first_ns),
        transport,
        seq_id,
        second_size,
        second_ns,
    ) =~= recorded(arrivals, transport, seq_id, first_size, second_ns));
}

/// Arrivals over different transports, or of different packets, may be recorded in
/// either order. Two first arrivals of one packet that announce different sizes are left
/// out: there the first one settles the size.
pub proof fn law_unrelated_arrivals_commute(
    arrivals: Map<u64, ArrivalRecord>,
    a: Transport,
    a_id: u64,
    a_size: u32,
    a_ns: u64,
    b: Transport,
    b_id: u64,
    b_size: u32,
    b_ns: u64,
)
    requires
        a_id != b_id || a != b,
        a_id != b_id || a_size == b_size || arrivals.contains_key(a_id),
    ensures
        recorded(recorded(arrivals, a, a_id, a_size, a_ns), b, b_id, b_size, b_ns) == recorded(
            recorded(arrivals, b, b_id, b_size, b_ns),
            a,
            a_id,
            a_size,
            a_ns,
        ),
{
    assert(recorded(recorded(arrivals, a, a_id, a_size, a_ns), b, b_id, b_size, b_ns) =~= recorded(
        recorded(arrivals, b, b_id, b_size, b_ns),
        a,
        a_id,
        a_size,
        a_ns,
    ));
}

/// An arrival leaves every other packet's record as it was, and the arrivals of the same
/// packet over other transports too.
pub proof fn law_arrival_touches_nothing_else(
    arrivals: Map<u64, ArrivalRecord>,
    transport: Transport,
    seq_id: u64,
    payload_size: u32,
    now: u64,
    other_id: u64,
)
    ensures
        ({
            let after = recorded(arrivals, transport, seq_id, payload_size, now);
            &&& other_id != seq_id ==> after.contains_key(other_id) == arrivals.contains_key(
                other_id,
            ) && after[other_id] == arrivals[other_id]
            &&& arrivals.contains_key(seq_id) && transport != Transport::Grpc
                ==> after[seq_id].grpc_arrival_ns == arrivals[seq_id].grpc_arrival_ns
            &&& arrivals.contains_key(seq_id) && transport != Transport::Quic
                ==> after[seq_id].quic_arrival_ns == arrivals[seq_id].quic_arrival_ns
            &&& arrivals.contains_key(seq_id) && transport != Transport::Tcp
                ==> after[seq_id].tcp_arrival_ns == arrivals[seq_id].tcp_arrival_ns
        }),
{
}

/// A packet that was encoded is accepted as what it is: its arrival goes on record under
/// its number and with the size of its payload, unless the clock gives no time. Sizes
/// beyond 32 bits have no room in the header, and are left out.
pub proof fn law_sent_packet_is_recorded(
    bytes: Seq<u8>,
    sequence_id: u64,
    payload: Seq<u8>,
    transport: Transport,
    before: Map<u64, ArrivalRecord>,
    timings_before: Seq<u64>,
    done: Result<(), AcceptError>,
    after: Map<u64, ArrivalRecord>,
    timings_after: Seq<u64>,
)
    requires
        encodes_sometime(bytes, sequence_id, payload),
        payload.len() < 0x1_0000_0000,
        accepted(bytes, transport, before, timings_before, done, after, timings_after),
    ensures
        done is Ok ==> recorded_sometime(
            before,
            transport,
            sequence_id,
            payload.len() as u32,
            after,
        ),
        done matches Err(e) ==> e == AcceptError::Clock(ClockBeforeEpoch) && after == before,
{
    let timestamp_ns = choose|timestamp_ns: u64| #[trigger]
        encodes(bytes, sequence_id, timestamp_ns, payload);
    lemma_encoded_header(bytes, sequence_id, timestamp_ns, payload);
}

/// The moment of an arrival goes on record as it is, over its own transport; a packet that
/// is new has no other arrival, and the size that it announces.
pub proof fn law_arrival_goes_on_record(
    arrivals: Map<u64, ArrivalRecord>,
    seq_id: u64,
    payload_size: u32,
    now: u64,
)
    ensures
        recorded(arrivals, Transport::Grpc, seq_id, payload_size, now)[seq_id].grpc_arrival_ns
            == Some(now),
        recorded(arrivals, Transport::Quic, seq_id, payload_size, now)[seq_id].quic_arrival_ns
            == Some(now),
        recorded(arrivals, Transport::Tcp, seq_id, payload_size, now)[seq_id].tcp_arrival_ns
            == Some(now),
        forall|transport: Transport| #[trigger]
            recorded(arrivals, transport, seq_id, payload_size, now).dom() == arrivals.dom().insert(
                seq_id,
            ),
        forall|transport: Transport|
            arrivals.contains_key(seq_id) ==> (#[trigger] recorded(
                arrivals,
                transport,
                seq_id,
                payload_size,
                now,
            ))[seq_id].payload_size == arrivals[seq_id].payload_size,
        !arrivals.contains_key(seq_id) ==> ({
            let grpc = recorded(arrivals, Transport::Grpc, seq_id, payload_size, now)[seq_id];
            let quic = recorded(arrivals, Transport::Quic, seq_id, payload_size, now)[seq_id];
            let tcp = recorded(arrivals, Transport::Tcp, seq_id, payload_size, now)[seq_id];
            &&& grpc.quic_arrival_ns is None && grpc.tcp_arrival_ns is None
            &&& quic.grpc_arrival_ns is None && quic.tcp_arrival_ns is None
            &&& tcp.grpc_arrival_ns is None && tcp.quic_arrival_ns is None
            &&& grpc.payload_size == payload_size
            &&& quic.payload_size == payload_size
            &&& tcp.payload_size == payload_size
        }),
{
    assert forall|transport: Transport| #[trigger]
        recorded(arrivals, transport, seq_id, payload_size, now).dom() == arrivals.dom().insert(
            seq_id,
        ) by {
        assert(recorded(arrivals, transport, seq_id, payload_size, now).dom()
            =~= arrivals.dom().insert(seq_id));
    }
}

/// What goes on record now is a reading of the system clock, unchanged: the nanoseconds
/// since the Unix epoch, as long as 64 bits hold them.
pub proof fn law_recorded_moment_is_the_reading(
    before: Map<u64, ArrivalRecord>,
    transport: Transport,
    seq_id: u64,
    payload_size: u32,
    after: Map<u64, ArrivalRecord>,
)
    requires
        recorded_sometime(before, transport, seq_id, payload_size, after),
    ensures
        after.contains_key(seq_id),
        exists|nanos: u128| #[trigger]
            clock_showed(Some(nanos)) && (nanos <= u64::MAX ==> Some(nanos as u64) == (
            match transport {
                Transport::Grpc => after[seq_id].grpc_arrival_ns,
                Transport::Quic => after[seq_id].quic_arrival_ns,
                Transport::Tcp => after[seq_id].tcp_arrival_ns,
            })),
{
    let now = choose|now: u64|
        after == #[trigger] recorded(before, transport, seq_id, payload_size, now) && clock_gave(
            Ok(now),
        );
    law_timestamp_is_the_reading(Ok(now));
    let nanos = choose|nanos: u128| #[trigger]
        clock_showed(Some(nanos)) && (nanos - now) % 0x1_0000_0000_0000_0000 == 0 && (nanos
            <= u64::MAX ==> nanos == now);
    assert(clock_showed(Some(nanos)));
}

/// Every message with a whole header and a proper flag is accepted under the number and the
/// size that stand in it, whatever follows, unless the clock gives no time; every other
/// message leaves all as it was.
pub proof fn law_what_is_accepted(
    bytes: Seq<u8>,
    transport: Transport,
    before: Map<u64, ArrivalRecord>,
    timings_before: Seq<u64>,
    done: Result<(), AcceptError>,
    after: Map<u64, ArrivalRecord>,
    timings_after: Seq<u64>,
)
    requires
        accepted(bytes, transport, before, timings_before, done, after, timings_after),
    ensures
        bytes.len() >= 21 && bytes[20] <= 1 ==> ({
            &&& timings_after == timings_before.push(timings_after.last())
            &&& timed(timings_after.last())
            &&& done is Ok ==> recorded_sometime(
                before,
                transport,
                le_value(bytes.subrange(0, 8)) as u64,
                le_value(bytes.subrange(16, 20)) as u32,
                after,
            )
            &&& done is Err ==> after == before && clock_showed(None)
        }),
        !(bytes.len() >= 21 && bytes[20] <= 1) ==> done is Err && after == before && timings_after
            == timings_before,
        bytes.len() < 21 ==> (done matches Err(AcceptError::Wire(WireError::TooSmall { .. }))),
        bytes.len() >= 21 && bytes[20] > 1 ==> (done matches Err(
            AcceptError::Wire(WireError::InvalidHeader { flag }),
        ) && flag == bytes[20]),
{
    if bytes.len() >= 21 && bytes[20] <= 1 {
        assert(timings_after =~= timings_before.push(timings_after.last()));
        if done is Err {
            law_timestamp_is_the_reading(Err(ClockBeforeEpoch));
        }
    }
}

} // verus!
