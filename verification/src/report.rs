//! What the server reports of arrivals, and which transport came first.

use crate::messages::ArrivalEntry;
use crate::tracker::{arrived, awaited, lists_entries, ArrivalRecord, Transport};
use vstd::multiset::Multiset;
use vstd::prelude::*;

verus! {

/// How the transports fared with one packet.
#[derive(Clone, Copy, Debug, PartialEq, Eq, Structural)]
pub enum FirstArrival {
    /// The packet came over no transport.
    Nobody,
    /// The packet came over one transport before all others.
    Winner(Transport),
    /// Several transports delivered the packet at the same, earliest moment.
    Tie,
}

/// How often each transport came first, and how often several did.
#[derive(Clone, Copy, Debug, PartialEq, Eq, Structural)]
pub struct ArrivalTally {
    pub grpc_first: u64,
    pub quic_first: u64,
    pub tcp_first: u64,
    pub ties: u64,
}

/// A reported moment: zero stands for no arrival.
pub open spec fn moment(arrival: Option<u64>) -> u64 {
    match arrival {
        Some(ns) => ns,
        None => 0,
    }
}

/// How a record is reported.
pub open spec fn entry_of(arrival: (u64, ArrivalRecord)) -> ArrivalEntry {
    ArrivalEntry {
        sequence_id: arrival.0,
        grpc_arrival_ns: moment(arrival.1.grpc_arrival_ns),
        quic_arrival_ns: moment(arrival.1.quic_arrival_ns),
        tcp_arrival_ns: moment(arrival.1.tcp_arrival_ns),
        payload_size: arrival.1.payload_size,
    }
}

/// The reported moment of arrival over a transport.
pub open spec fn arrival_over(entry: ArrivalEntry, transport: Transport) -> u64 {
    match transport {
        Transport::Grpc => entry.grpc_arrival_ns,
        Transport::Quic => entry.quic_arrival_ns,
        Transport::Tcp => entry.tcp_arrival_ns,
    }
}

/// The packet came over `transport`, and over every other one later or not at all.
pub open spec fn came_first(entry: ArrivalEntry, transport: Transport) -> bool {
    &&& arrival_over(entry, transport) > 0
    &&& forall|other: Transport|
        other != transport ==> #[trigger] arrival_over(entry, other) == 0 || arrival_over(
            entry,
            other,
        ) > arrival_over(entry, transport)
}

/// The packet came over some transport.
pub open spec fn came(entry: ArrivalEntry) -> bool {
    exists|transport: Transport| #[trigger] arrival_over(entry, transport) > 0
}

/// How the transports fared with a packet.
pub open spec fn first_arrival_of(entry: ArrivalEntry) -> FirstArrival {
    if came_first(entry, Transport::Grpc) {
        FirstArrival::Winner(Transport::Grpc)
    } else if came_first(entry, Transport::Quic) {
        FirstArrival::Winner(Transport::Quic)
    } else if came_first(entry, Transport::Tcp) {
        FirstArrival::Winner(Transport::Tcp)
    } else if came(entry) {
        FirstArrival::Tie
    } else {
        FirstArrival::Nobody
    }
}

/// How many packets ended in `outcome`.
pub open spec fn count_outcome(entries: Seq<ArrivalEntry>, outcome: FirstArrival) -> nat {
    entries.filter(|entry: ArrivalEntry| first_arrival_of(entry) == outcome).len()
}

/// `tally` counts the outcomes of `entries`.
pub open spec fn tallies(entries: Seq<ArrivalEntry>, tally: ArrivalTally) -> bool {
    &&& tally.grpc_first == count_outcome(entries, FirstArrival::Winner(Transport::Grpc))
    &&& tally.quic_first == count_outcome(entries, FirstArrival::Winner(Transport::Quic))
    &&& tally.tcp_first == count_outcome(entries, FirstArrival::Winner(Transport::Tcp))
    &&& tally.ties == count_outcome(entries, FirstArrival::Tie)
}

/// A reported moment: zero stands for no arrival.
fn report_moment(arrival: Option<u64>) -> (ns: u64)
    ensures
        ns == moment(arrival),
{
    match arrival {
        Some(ns) => ns,
        None => 0,
    }
}

/// Turns the arrivals on record into the entries of a report, in the same order.
pub fn report_entries(arrivals: &Vec<(u64, ArrivalRecord)>) -> (entries: Vec<ArrivalEntry>)
    ensures
        entries@ == arrivals@.map_values(|arrival: (u64, ArrivalRecord)| entry_of(arrival)),
{
    let mut entries: Vec<ArrivalEntry> = Vec::new();
    let mut i: usize = 0;
    while i < arrivals.len()
        invariant
            i <= arrivals@.len(),
            entries@.len() == i,
            forall|k: int| 0 <= k < i ==> #[trigger] entries@[k] == entry_of(arrivals@[k]),
        decreases arrivals@.len() - i,
    {
        let (sequence_id, record) = arrivals[i];
        entries.push(
            ArrivalEntry {
                sequence_id,
                grpc_arrival_ns: report_moment(record.grpc_arrival_ns),
                quic_arrival_ns: report_moment(record.quic_arrival_ns),
                tcp_arrival_ns: report_moment(record.tcp_arrival_ns),
                payload_size: record.payload_size,
            },
        );
        i = i + 1;
    }
    assert(entries@ =~= arrivals@.map_values(|arrival: (u64, ArrivalRecord)| entry_of(arrival)));
    entries
}

/// The earlier of two moments, where zero stands for none.
fn earlier(a: u64, b: u64) -> (first: u64)
    ensures
        first == if a == 0 || (b > 0 && b < a) {
            b
        } else {
            a
        },
{
    if a == 0 || (b > 0 && b < a) {
        b
    } else {
        a
    }
}

/// Says which transport delivered a packet first.
pub fn first_arrival(entry: &ArrivalEntry) -> (outcome: FirstArrival)
    ensures
        outcome == first_arrival_of(*entry),
{
    let grpc: u64 = entry.grpc_arrival_ns;
    let quic: u64 = entry.quic_arrival_ns;
    let tcp: u64 = entry.tcp_arrival_ns;
    let min: u64 = earlier(earlier(grpc, quic), tcp);
    assert(arrival_over(*entry, Transport::Grpc) == grpc);
    assert(arrival_over(*entry, Transport::Quic) == quic);
    assert(arrival_over(*entry, Transport::Tcp) == tcp);
    if min == 0 {
        return FirstArrival::Nobody;
    }
    if grpc == min && quic != min && tcp != min {
        FirstArrival::Winner(Transport::Grpc)
    } else if quic == min && grpc != min && tcp != min {
        FirstArrival::Winner(Transport::Quic)
    } else if tcp == min && grpc != min && quic != min {
        FirstArrival::Winner(Transport::Tcp)
    } else {
        FirstArrival::Tie
    }
}

/// Counting goes on entry by entry.
proof fn lemma_count_step(entries: Seq<ArrivalEntry>, i: int, outcome: FirstArrival)
    requires
        0 <= i < entries.len(),
    ensures
        count_outcome(entries.take(i + 1), outcome) == count_outcome(entries.take(i), outcome) + if first_arrival_of(
            entries[i],
        ) == outcome {
            1nat
        } else {
            0nat
        },
        count_outcome(entries.take(i), outcome) <= i,
{
    reveal(Seq::filter);
    let p = |entry: ArrivalEntry| first_arrival_of(entry) == outcome;
    assert(entries.take(i + 1).drop_last() =~= entries.take(i));
    entries.take(i).lemma_filter_len(p);
}

/// Counts how often each transport came first over a whole report.
pub fn tally_arrivals(entries: &Vec<ArrivalEntry>) -> (tally: ArrivalTally)
    ensures
        tallies(entries@, tally),
{
    let mut tally = ArrivalTally { grpc_first: 0, quic_first: 0, tcp_first: 0, ties: 0 };
    let mut i: usize = 0;
    proof {
        reveal(Seq::filter);
        assert(entries@.take(0) =~= Seq::empty());
    }
    while i < entries.len()
        invariant
            i <= entries@.len(),
            tally.grpc_first == count_outcome(
                entries@.take(i as int),
                FirstArrival::Winner(Transport::Grpc),
            ),
            tally.quic_first == count_outcome(
                entries@.take(i as int),
                FirstArrival::Winner(Transport::Quic),
            ),
            tally.tcp_first == count_outcome(
                entries@.take(i as int),
                FirstArrival::Winner(Transport::Tcp),
            ),
            tally.ties == count_outcome(entries@.take(i as int), FirstArrival::Tie),
        decreases entries@.len() - i,
    {
        proof {
            lemma_count_step(entries@, i as int, FirstArrival::Winner(Transport::Grpc));
            lemma_count_step(entries@, i as int, FirstArrival::Winner(Transport::Quic));
            lemma_count_step(entries@, i as int, FirstArrival::Winner(Transport::Tcp));
            lemma_count_step(entries@, i as int, FirstArrival::Tie);
        }
        match first_arrival(&entries[i]) {
            FirstArrival::Nobody => {},
            FirstArrival::Winner(Transport::Grpc) => {
                tally.grpc_first = tally.grpc_first + 1;
            },
            FirstArrival::Winner(Transport::Quic) => {
                tally.quic_first = tally.quic_first + 1;
            },
            FirstArrival::Winner(Transport::Tcp) => {
                tally.tcp_first = tally.tcp_first + 1;
            },
            FirstArrival::Tie => {
                tally.ties = tally.ties + 1;
            },
        }
        i = i + 1;
    }
    assert(entries@.take(i as int) =~= entries@);
    tally
}

/// How many packets came over some transport.
pub open spec fn count_came(entries: Seq<ArrivalEntry>) -> nat {
    entries.filter(|entry: ArrivalEntry| came(entry)).len()
}

proof fn lemma_outcomes_add_up(entries: Seq<ArrivalEntry>)
    ensures
        count_outcome(entries, FirstArrival::Winner(Transport::Grpc)) + count_outcome(
            entries,
            FirstArrival::Winner(Transport::Quic),
        ) + count_outcome(entries, FirstArrival::Winner(Transport::Tcp)) + count_outcome(
            entries,
            FirstArrival::Tie,
        ) == count_came(entries),
    decreases entries.len(),
{
    reveal(Seq::filter);
    if entries.len() > 0 {
        lemma_outcomes_add_up(entries.drop_last());
    }
}

/// Each packet that came over some transport is counted once, and no other is.
pub proof fn law_tally_counts_each_packet_once(entries: Seq<ArrivalEntry>, tally: ArrivalTally)
    requires
        tallies(entries, tally),
    ensures
        tally.grpc_first + tally.quic_first + tally.tcp_first + tally.ties == count_came(entries),
        count_came(entries) <= entries.len(),
{
    lemma_outcomes_add_up(entries);
    entries.lemma_filter_len(|entry: ArrivalEntry| came(entry));
}

proof fn lemma_count_in_multiset(entries: Seq<ArrivalEntry>, outcome: FirstArrival)
    ensures
        count_outcome(entries, outcome) == entries.to_multiset().filter(
            |entry: ArrivalEntry| first_arrival_of(entry) == outcome,
        ).len(),
    decreases entries.len(),
{
    broadcast use vstd::seq_lib::group_to_multiset_ensures;

    reveal(Seq::filter);
    let p = |entry: ArrivalEntry| first_arrival_of(entry) == outcome;
    if entries.len() > 0 {
        let rest = entries.drop_last();
        let last = entries.last();
        lemma_count_in_multiset(rest, outcome);
        assert(entries =~= rest.push(last));
        assert(entries.to_multiset() =~= rest.to_multiset().insert(last));
        if p(last) {
            assert(entries.to_multiset().filter(p) =~= rest.to_multiset().filter(p).insert(last));
        } else {
            assert(entries.to_multiset().filter(p) =~= rest.to_multiset().filter(p));
        }
    } else {
        assert(entries.to_multiset() =~= Multiset::empty());
        assert(entries.to_multiset().filter(p) =~= Multiset::empty());
    }
}

/// The tally does not depend on the order of the report.
pub proof fn law_tally_ignores_order(
    a: Seq<ArrivalEntry>,
    b: Seq<ArrivalEntry>,
    a_tally: ArrivalTally,
    b_tally: ArrivalTally,
)
    requires
        tallies(a, a_tally),
        tallies(b, b_tally),
        a.to_multiset() == b.to_multiset(),
    ensures
        a_tally == b_tally,
{
    lemma_count_in_multiset(a, FirstArrival::Winner(Transport::Grpc));
    lemma_count_in_multiset(a, FirstArrival::Winner(Transport::Quic));
    lemma_count_in_multiset(a, FirstArrival::Winner(Transport::Tcp));
    lemma_count_in_multiset(a, FirstArrival::Tie);
    lemma_count_in_multiset(b, FirstArrival::Winner(Transport::Grpc));
    lemma_count_in_multiset(b, FirstArrival::Winner(Transport::Quic));
    lemma_count_in_multiset(b, FirstArrival::Winner(Transport::Tcp));
    lemma_count_in_multiset(b, FirstArrival::Tie);
}

/// A packet that two transports delivered counts for the one that was earlier, and as a
/// tie where both were at the same moment. A moment of zero is left out: it reads as no
/// arrival.
pub proof fn law_earlier_transport_wins(
    seq_id: u64,
    payload_size: u32,
    a: Transport,
    a_ns: u64,
    b: Transport,
    b_ns: u64,
)
    requires
        a != b,
        0 < a_ns <= b_ns,
    ensures
        ({
            let record = arrived(arrived(awaited(payload_size), a, a_ns), b, b_ns);
            first_arrival_of(entry_of((seq_id, record))) == if a_ns < b_ns {
                FirstArrival::Winner(a)
            } else {
                FirstArrival::Tie
            }
        }),
{
    let record = arrived(arrived(awaited(payload_size), a, a_ns), b, b_ns);
    let entry = entry_of((seq_id, record));
    assert(arrival_over(entry, a) == a_ns);
    assert(arrival_over(entry, b) == b_ns);
}

/// A packet that came over one transport alone counts for it.
pub proof fn law_only_transport_wins(seq_id: u64, payload_size: u32, a: Transport, a_ns: u64)
    requires
        a_ns > 0,
    ensures
        first_arrival_of(entry_of((seq_id, arrived(awaited(payload_size), a, a_ns))))
            == FirstArrival::Winner(a),
{
    let entry = entry_of((seq_id, arrived(awaited(payload_size), a, a_ns)));
    assert(arrival_over(entry, a) == a_ns);
}

/// A report of the arrivals on record has exactly one entry for each packet, and that
/// entry shows the packet's record.
pub proof fn law_report_shows_each_packet_once(
    arrivals: Map<u64, ArrivalRecord>,
    items: Seq<(u64, ArrivalRecord)>,
    entries: Seq<ArrivalEntry>,
)
    requires
        lists_entries(items, arrivals),
        entries == items.map_values(|arrival: (u64, ArrivalRecord)| entry_of(arrival)),
    ensures
        forall|seq_id: u64| #[trigger]
            arrivals.contains_key(seq_id) ==> entries.contains(
                entry_of((seq_id, arrivals[seq_id])),
            ),
        forall|i: int|
            0 <= i < entries.len() ==> arrivals.contains_key((#[trigger] entries[i]).sequence_id)
                && entries[i] == entry_of((entries[i].sequence_id, arrivals[entries[i].sequence_id])),
        forall|i: int, j: int|
            0 <= i < j < entries.len() ==> (#[trigger] entries[i]).sequence_id != (
            #[trigger] entries[j]).sequence_id,
{
    assert forall|seq_id: u64| #[trigger] arrivals.contains_key(seq_id) implies entries.contains(
        entry_of((seq_id, arrivals[seq_id])),
    ) by {
        let i = choose|i: int| 0 <= i < items.len() && #[trigger] items[i].0 == seq_id;
        assert(entries[i] == entry_of(items[i]));
    }
    assert forall|i: int, j: int| 0 <= i < j < entries.len() implies (
    #[trigger] entries[i]).sequence_id != (#[trigger] entries[j]).sequence_id by {
        assert(items[i].0 != items[j].0);
    }
}

/// A record is reported under its number and with its size, each moment as it is, and zero
/// where there is none.
pub proof fn law_report_shows_the_record(seq_id: u64, record: ArrivalRecord)
    ensures
        entry_of((seq_id, record)).sequence_id == seq_id,
        entry_of((seq_id, record)).payload_size == record.payload_size,
        record.grpc_arrival_ns matches Some(ns) ==> entry_of((seq_id, record)).grpc_arrival_ns
            == ns,
        record.quic_arrival_ns matches Some(ns) ==> entry_of((seq_id, record)).quic_arrival_ns
            == ns,
        record.tcp_arrival_ns matches Some(ns) ==> entry_of((seq_id, record)).tcp_arrival_ns == ns,
        record.grpc_arrival_ns is None ==> entry_of((seq_id, record)).grpc_arrival_ns == 0,
        record.quic_arrival_ns is None ==> entry_of((seq_id, record)).quic_arrival_ns == 0,
        record.tcp_arrival_ns is None ==> entry_of((seq_id, record)).tcp_arrival_ns == 0,
{
}

/// The least moment decides: a transport wins whose moment is less than that of every other
/// transport that delivered the packet; where the least moment is shared it is a tie; and
/// nobody wins a packet that came over no transport.
pub proof fn law_least_moment_decides(entry: ArrivalEntry)
    ensures
        ({
            let grpc = entry.grpc_arrival_ns;
            let quic = entry.quic_arrival_ns;
            let tcp = entry.tcp_arrival_ns;
            let outcome = first_arrival_of(entry);
            &&& 0 < grpc && (quic == 0 || grpc < quic) && (tcp == 0 || grpc < tcp) <==> outcome
                == FirstArrival::Winner(Transport::Grpc)
            &&& 0 < quic && (grpc == 0 || quic < grpc) && (tcp == 0 || quic < tcp) <==> outcome
                == FirstArrival::Winner(Transport::Quic)
            &&& 0 < tcp && (grpc == 0 || tcp < grpc) && (quic == 0 || tcp < quic) <==> outcome
                == FirstArrival::Winner(Transport::Tcp)
            &&& 0 < grpc && grpc == quic && (tcp == 0 || grpc <= tcp) ==> outcome
                == FirstArrival::Tie
            &&& 0 < grpc && grpc == tcp && (quic == 0 || grpc <= quic) ==> outcome
                == FirstArrival::Tie
            &&& 0 < quic && quic == tcp && (grpc == 0 || quic <= grpc) ==> outcome
                == FirstArrival::Tie
            &&& grpc == 0 && quic == 0 && tcp == 0 <==> outcome == FirstArrival::Nobody
        }),
{
    assert(arrival_over(entry, Transport::Grpc) == entry.grpc_arrival_ns);
    assert(arrival_over(entry, Transport::Quic) == entry.quic_arrival_ns);
    assert(arrival_over(entry, Transport::Tcp) == entry.tcp_arrival_ns);
}

/// One packet more changes the tally by that packet's own outcome alone, and an empty report
/// has an empty tally.
pub proof fn law_each_packet_is_tallied_by_its_own_outcome(
    entries: Seq<ArrivalEntry>,
    before: ArrivalTally,
    entry: ArrivalEntry,
    after: ArrivalTally,
)
    requires
        tallies(entries, before),
        tallies(entries.push(entry), after),
    ensures
        entries.len() == 0 ==> before == (ArrivalTally {
            grpc_first: 0,
            quic_first: 0,
            tcp_first: 0,
            ties: 0,
        }),
        ({
            let outcome = first_arrival_of(entry);
            &&& after.grpc_first - before.grpc_first == if outcome == FirstArrival::Winner(
                Transport::Grpc,
            ) {
                1int
            } else {
                0int
            }
            &&& after.quic_first - before.quic_first == if outcome == FirstArrival::Winner(
                Transport::Quic,
            ) {
                1int
            } else {
                0int
            }
            &&& after.tcp_first - before.tcp_first == if outcome == FirstArrival::Winner(
                Transport::Tcp,
            ) {
                1int
            } else {
                0int
            }
            &&& after.ties - before.ties == if outcome == FirstArrival::Tie {
                1int
            } else {
                0int
            }
        }),
{
    let more = entries.push(entry);
    let n = entries.len() as int;
    reveal(Seq::filter);
    assert(more.take(n) =~= entries);
    assert(more.take(n + 1) =~= more);
    lemma_count_step(more, n, FirstArrival::Winner(Transport::Grpc));
    lemma_count_step(more, n, FirstArrival::Winner(Transport::Quic));
    lemma_count_step(more, n, FirstArrival::Winner(Transport::Tcp));
    lemma_count_step(more, n, FirstArrival::Tie);
}

} // verus!
