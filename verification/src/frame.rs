//! Messages on a raw TCP stream: each one behind its length.

use crate::endian::{
    law_le_digits, law_le_roundtrip, le_bytes, le_value, lemma_byte_span_values, lemma_le_bytes_len,
    lemma_le_value_bound, u32_from_le, u32_to_le,
};
use crate::tracker::{accepted, AcceptError, ArrivalRecord, ArrivalTracker, Transport};
use crate::wire::low_u32;
use vstd::prelude::*;

verus! {

/// How many bytes give the length of a message.
pub const LENGTH_SIZE: usize = 4;

/// A message as it stands on the stream: the low 32 bits of its length, least
/// significant byte first, then the message.
pub open spec fn framed(message: Seq<u8>) -> Seq<u8> {
    le_bytes(message.len() % 0x1_0000_0000, 4) + message
}

/// The messages one behind the other, each in its frame.
pub open spec fn stream_of(messages: Seq<Seq<u8>>) -> Seq<u8>
    decreases messages.len(),
{
    if messages.len() == 0 {
        Seq::empty()
    } else {
        framed(messages[0]) + stream_of(messages.skip(1))
    }
}

/// Puts a message in its frame, so that one write sends both.
pub fn frame_message(message: Vec<u8>) -> (frame: Vec<u8>)
    ensures
        frame@ == framed(message@),
{
    let mut message = message;
    let mut frame: Vec<u8> = u32_to_le(low_u32(message.len()));
    frame.append(&mut message);
    frame
}

/// Where the server stands with a TCP connection: what it waits for, and what it has
/// recorded and timed.
pub struct ConnectionState {
    pub reader: FrameReader,
    pub arrivals: Map<u64, ArrivalRecord>,
    pub timings: Seq<u64>,
}

/// Where the server stands.
pub open spec fn state_of(reader: FrameReader, tracker: ArrivalTracker) -> ConnectionState {
    ConnectionState { reader, arrivals: tracker@, timings: tracker.tcp_decode() }
}

/// What taking in the bytes that the reader needed does: the bytes of a length change
/// nothing but what is waited for; those of a message are taken in as a packet.
pub open spec fn took_in(
    before: ConnectionState,
    chunk: Seq<u8>,
    done: Result<(), AcceptError>,
    after: ConnectionState,
) -> bool {
    &&& after.reader == before.reader.after(chunk)
    &&& match before.reader {
        FrameReader::Length => done is Ok && after.arrivals == before.arrivals && after.timings
            == before.timings,
        FrameReader::Body { .. } => accepted(
            chunk,
            Transport::Tcp,
            before.arrivals,
            before.timings,
            done,
            after.arrivals,
            after.timings,
        ),
    }
}

/// The stream ended inside a message.
#[derive(Clone, Copy, Debug, PartialEq, Eq, Structural)]
pub struct TruncatedMessage {
    /// The length that the message should have had.
    pub expected: usize,
}

/// What a reader of the stream waits for.
#[derive(Clone, Copy, Debug, PartialEq, Eq, Structural)]
pub enum FrameReader {
    /// The length of the next message.
    Length,
    /// A message of the given length.
    Body { len: usize },
}

impl FrameReader {
    /// How many bytes the reader needs next.
    pub open spec fn wants(self) -> nat {
        match self {
            FrameReader::Length => LENGTH_SIZE as nat,
            FrameReader::Body { len } => len as nat,
        }
    }

    /// What the reader waits for once it has got what it needed.
    pub open spec fn after(self, chunk: Seq<u8>) -> FrameReader {
        match self {
            FrameReader::Length => FrameReader::Body { len: le_value(chunk) as usize },
            FrameReader::Body { .. } => FrameReader::Length,
        }
    }

    /// The messages a reader gets out of a stream, and what it waits for in vain when
    /// the stream ends.
    pub open spec fn run(self, stream: Seq<u8>) -> (Seq<Seq<u8>>, FrameReader)
        decreases
                stream.len(),
                if self is Length {
                    0nat
                } else {
                    1nat
                },
    {
        if stream.len() < self.wants() {
            (Seq::empty(), self)
        } else {
            let chunk = stream.take(self.wants() as int);
            let (rest, end) = self.after(chunk).run(stream.skip(self.wants() as int));
            match self {
                FrameReader::Length => (rest, end),
                FrameReader::Body { .. } => (seq![chunk] + rest, end),
            }
        }
    }

    /// A reader at the start of a stream.
    pub fn new() -> (reader: Self)
        ensures
            reader == FrameReader::Length,
    {
        FrameReader::Length
    }

    /// How many bytes to read next.
    pub fn wanted(&self) -> (n: usize)
        ensures
            n == self.wants(),
    {
        match self {
            FrameReader::Length => LENGTH_SIZE,
            FrameReader::Body { len } => *len,
        }
    }

    /// Takes in the bytes that the reader needed, and gives out the message where they
    /// are one.
    pub fn feed(&mut self, chunk: Vec<u8>) -> (message: Option<Vec<u8>>)
        requires
            chunk@.len() == old(self).wants(),
        ensures
            *final(self) == old(self).after(chunk@),
            match *old(self) {
                FrameReader::Length => message is None,
                FrameReader::Body { .. } => message matches Some(m) && m@ == chunk@,
            },
    {
        match *self {
            FrameReader::Length => {
                let len: u32 = u32_from_le(chunk.as_slice());
                *self = FrameReader::Body { len: len as usize };
                None
            },
            FrameReader::Body { .. } => {
                *self = FrameReader::Length;
                Some(chunk)
            },
        }
    }

    /// Takes in the bytes that the reader needed; a message among them is decoded and its
    /// arrival over TCP recorded. After an error the connection is to be given up.
    pub fn take_in(&mut self, chunk: Vec<u8>, tracker: &mut ArrivalTracker) -> (done: Result<
        (),
        AcceptError,
    >)
        requires
            chunk@.len() == old(self).wants(),
        ensures
            took_in(
                state_of(*old(self), *old(tracker)),
                chunk@,
                done,
                state_of(*final(self), *final(tracker)),
            ),
            final(tracker).quic_decode() == old(tracker).quic_decode(),
    {
        match self.feed(chunk) {
            None => Ok(()),
            Some(message) => tracker.accept_tcp(message.as_slice()),
        }
    }

    /// Says whether the stream may end here: it may between messages and inside the
    /// length of one, but not inside a message.
    pub fn at_end(&self) -> (end: Result<(), TruncatedMessage>)
        ensures
            match *self {
                FrameReader::Length => end is Ok,
                FrameReader::Body { len } => end == Err::<(), TruncatedMessage>(
                    TruncatedMessage { expected: len },
                ),
            },
    {
        match self {
            FrameReader::Length => Ok(()),
            FrameReader::Body { len } => Err(TruncatedMessage { expected: *len }),
        }
    }
}

/// Reading one frame off a stream gives its message, and leaves what follows it.
proof fn lemma_run_frame(message: Seq<u8>, rest: Seq<u8>)
    requires
        message.len() < 0x1_0000_0000,
    ensures
        ({
            let (messages, end) = FrameReader::Length.run(rest);
            FrameReader::Length.run(framed(message) + rest) == (seq![message] + messages, end)
        }),
{
    let stream = framed(message) + rest;
    let prefix = le_bytes(message.len(), 4);
    lemma_le_bytes_len(message.len(), 4);
    lemma_byte_span_values();
    law_le_roundtrip(message.len(), 4);
    assert(stream.take(4) =~= prefix);
    let body = stream.skip(4);
    assert(body =~= message + rest);
    let reader = FrameReader::Length.after(prefix);
    assert(reader == (FrameReader::Body { len: message.len() as usize }));
    assert(body.take(message.len() as int) =~= message);
    assert(body.skip(message.len() as int) =~= rest);
    assert(FrameReader::Length.run(stream) == reader.run(body));
    assert(reader.after(message) == FrameReader::Length);
    let (messages, end) = FrameReader::Length.run(rest);
    assert(reader.run(body) == (seq![message] + messages, end));
}

proof fn lemma_run_stream(messages: Seq<Seq<u8>>, rest: Seq<u8>)
    requires
        forall|i: int| 0 <= i < messages.len() ==> (#[trigger] messages[i]).len() < 0x1_0000_0000,
    ensures
        ({
            let (more, end) = FrameReader::Length.run(rest);
            FrameReader::Length.run(stream_of(messages) + rest) == (messages + more, end)
        }),
    decreases messages.len(),
{
    let (more, end) = FrameReader::Length.run(rest);
    if messages.len() == 0 {
        assert(stream_of(messages) + rest =~= rest);
        assert(messages + more =~= more);
    } else {
        let tail = messages.skip(1);
        assert forall|i: int| 0 <= i < tail.len() implies (#[trigger] tail[i]).len()
            < 0x1_0000_0000 by {
            assert(tail[i] == messages[i + 1]);
        }
        lemma_run_stream(tail, rest);
        lemma_run_frame(messages[0], stream_of(tail) + rest);
        assert(stream_of(messages) + rest =~= framed(messages[0]) + (stream_of(tail) + rest));
        assert(seq![messages[0]] + (tail + more) =~= messages + more);
    }
}

/// A reader gets exactly the messages that were framed, in order, and the stream ends
/// where it may. Messages whose length does not fit in 32 bits are left out.
pub proof fn law_reader_gets_what_was_framed(messages: Seq<Seq<u8>>)
    requires
        forall|i: int| 0 <= i < messages.len() ==> (#[trigger] messages[i]).len() < 0x1_0000_0000,
    ensures
        FrameReader::Length.run(stream_of(messages)) == (messages, FrameReader::Length),
{
    lemma_run_stream(messages, Seq::empty());
    assert(stream_of(messages) + Seq::<u8>::empty() =~= stream_of(messages));
    assert(messages + Seq::<Seq<u8>>::empty() =~= messages);
}

/// Where a stream is cut inside a frame, the reader still gets every message before it,
/// and none of the one that was cut: it ends cleanly where the cut is inside the length,
/// and else knows how long the message should have been.
pub proof fn law_cut_stream(messages: Seq<Seq<u8>>, last: Seq<u8>, cut: nat)
    requires
        forall|i: int| 0 <= i < messages.len() ==> (#[trigger] messages[i]).len() < 0x1_0000_0000,
        last.len() < 0x1_0000_0000,
        cut < framed(last).len(),
    ensures
        FrameReader::Length.run(stream_of(messages) + framed(last).take(cut as int)) == (
            messages,
            if cut < LENGTH_SIZE {
                FrameReader::Length
            } else {
                FrameReader::Body { len: last.len() as usize }
            },
        ),
{
    let piece = framed(last).take(cut as int);
    lemma_run_stream(messages, piece);
    let prefix = le_bytes(last.len(), 4);
    lemma_le_bytes_len(last.len(), 4);
    lemma_byte_span_values();
    law_le_roundtrip(last.len(), 4);
    if cut >= 4 {
        assert(piece.take(4) =~= prefix);
        let reader = FrameReader::Length.after(prefix);
        assert(reader == (FrameReader::Body { len: last.len() as usize }));
        assert(FrameReader::Length.run(piece) == reader.run(piece.skip(4)));
    }
    assert(messages + Seq::<Seq<u8>>::empty() =~= messages);
}

/// No two lists of messages share a stream.
pub proof fn law_framing_is_unambiguous(a: Seq<Seq<u8>>, b: Seq<Seq<u8>>)
    requires
        forall|i: int| 0 <= i < a.len() ==> (#[trigger] a[i]).len() < 0x1_0000_0000,
        forall|i: int| 0 <= i < b.len() ==> (#[trigger] b[i]).len() < 0x1_0000_0000,
        stream_of(a) == stream_of(b),
    ensures
        a == b,
{
    law_reader_gets_what_was_framed(a);
    law_reader_gets_what_was_framed(b);
}

/// A reader never waits for more than 32 bits can count.
pub proof fn law_reader_wants_little(reader: FrameReader, chunk: Seq<u8>)
    requires
        chunk.len() == reader.wants(),
    ensures
        reader.after(chunk).wants() < 0x1_0000_0000,
{
    lemma_byte_span_values();
    lemma_le_value_bound(chunk);
}

/// A frame is four bytes of length, the lowest first, and then the message itself. Of a
/// length that takes more than 32 bits the low ones stand there.
pub proof fn law_frame_layout(message: Seq<u8>)
    ensures
        framed(message).len() == 4 + message.len(),
        framed(message).skip(4) == message,
        le_value(framed(message).take(4)) == message.len() % 0x1_0000_0000,
        message.len() < 0x1_0000_0000 ==> ({
            &&& framed(message)[0] == message.len() % 256
            &&& framed(message)[1] == message.len() / 0x100 % 256
            &&& framed(message)[2] == message.len() / 0x1_0000 % 256
            &&& framed(message)[3] == message.len() / 0x100_0000 % 256
        }),
{
    let n = message.len() % 0x1_0000_0000;
    lemma_le_bytes_len(n, 4);
    lemma_byte_span_values();
    law_le_roundtrip(n, 4);
    assert(framed(message).take(4) =~= le_bytes(n, 4));
    assert(framed(message).skip(4) =~= message);
    law_le_digits(n, 4, 0);
    law_le_digits(n, 4, 1);
    law_le_digits(n, 4, 2);
    law_le_digits(n, 4, 3);
    assert(n / 1 == n);
}

/// A reader wants four bytes for a length, then as many as those spell, the lowest first,
/// and then the next length.
pub proof fn law_reader_alternates(chunk: Seq<u8>, len: usize, body: Seq<u8>)
    requires
        chunk.len() == 4,
    ensures
        FrameReader::Length.wants() == 4,
        FrameReader::Length.after(chunk).wants() == chunk[0] + 0x100 * chunk[1] + 0x1_0000
            * chunk[2] + 0x100_0000 * chunk[3],
        (FrameReader::Body { len }).wants() == len,
        (FrameReader::Body { len }).after(body) == FrameReader::Length,
{
    reveal_with_fuel(le_value, 5);
    assert(chunk.skip(1).skip(1) =~= chunk.skip(2));
    assert(chunk.skip(2).skip(1) =~= chunk.skip(3));
    assert(chunk.skip(3).skip(1) =~= Seq::<u8>::empty());
}

} // verus!
