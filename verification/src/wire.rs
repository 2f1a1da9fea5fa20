//! The packet format on the wire: a fixed header, then the payload bytes.

use crate::clock::{
    clock_gave, clock_showed, elapsed_ns, law_timestamp_is_the_reading, now_ns, start_stopwatch,
    timed, ClockBeforeEpoch,
};
use crate::endian::{
    law_le_roundtrip, law_le_value_roundtrip, le_bytes, le_value, lemma_byte_span_values,
    lemma_le_bytes_len,
};
use crate::serde_metrics::{one_more, SerdeMetrics};
use crate::text::{decimal, decimal_text};
use vstd::prelude::*;
use vstd::string::StringExecFns;

verus! {

/// Payloads at or above this size are compressed before sending (500 KB).
pub const COMPRESSION_THRESHOLD: usize = 500 * 1024;

/// The most bytes accepted from a single stream (128 MiB).
pub const MAX_STREAM_SIZE: usize = 128 * 1024 * 1024;

/// The size of the header: two 8-byte numbers, a 4-byte number and a flag.
pub const HEADER_SIZE: usize = 21;

/// A decoded packet. `payload` is as it came over the wire: where `compressed` is
/// set, it is an LZ4 block, and `payload_size` is the size it expands to.
pub struct WireBlastPacket {
    pub sequence_id: u64,
    pub timestamp_ns: u64,
    pub payload_size: u32,
    pub compressed: bool,
    pub payload: Vec<u8>,
}

/// Why bytes are no packet.
#[derive(Clone, Copy, Debug, PartialEq, Eq, Structural)]
pub enum WireError {
    /// Fewer bytes than a header has.
    TooSmall { len: usize },
    /// The header's flag is neither zero nor one.
    InvalidHeader { flag: u8 },
}

/// What is said of an error.
pub open spec fn error_text(error: WireError) -> Seq<char> {
    match error {
        WireError::TooSmall { len } => "wire buffer too small: "@ + decimal(len as nat) + " < "@
            + decimal(HEADER_SIZE as nat),
        WireError::InvalidHeader { flag } => flag_text(flag),
    }
}

/// What `bincode` says of a byte that stands for neither truth value.
pub open spec fn flag_text(flag: u8) -> Seq<char> {
    "invalid u8 while decoding bool, expected 0 or 1, found "@ + decimal(flag as nat)
}

/// Calls `to_string` on the error that `bincode` gives for a byte that stands for neither
/// truth value: a fixed phrase, and the byte in decimal digits.
#[verifier::external_body]
fn bincode_flag_text(flag: u8) -> (text: String)
    ensures
        text@ == flag_text(flag),
{
    bincode::ErrorKind::InvalidBoolEncoding(flag).to_string()
}

impl WireError {
    /// Says in words why bytes are no packet.
    pub fn message(&self) -> (text: String)
        ensures
            text@ == error_text(*self),
    {
        match self {
            WireError::TooSmall { len } => {
                let mut text: String = "wire buffer too small: ".to_owned();
                text.append(decimal_text(*len).as_str());
                text.append(" < ");
                text.append(decimal_text(HEADER_SIZE).as_str());
                text
            },
            WireError::InvalidHeader { flag } => bincode_flag_text(*flag),
        }
    }
}

/// Why decoding in `bincode` failed.
#[verifier::external_type_specification]
#[verifier::external_body]
pub struct ExBincodeErrorKind(bincode::ErrorKind);

/// The header: sequence number, timestamp and payload size, each least significant
/// byte first, and the compression flag.
pub open spec fn header_bytes(
    sequence_id: u64,
    timestamp_ns: u64,
    payload_size: u32,
    compressed: bool,
) -> Seq<u8> {
    le_bytes(sequence_id as nat, 8) + le_bytes(timestamp_ns as nat, 8) + le_bytes(
        payload_size as nat,
        4,
    ) + seq![if compressed { 1u8 } else { 0u8 }]
}

/// Calls `bincode::serialize` on the four header fields in order: integers of fixed
/// width, least significant byte first, and the flag as one byte.
#[verifier::external_body]
fn bincode_header(
    sequence_id: u64,
    timestamp_ns: u64,
    payload_size: u32,
    compressed: bool,
) -> (bytes: Vec<u8>)
    ensures
        bytes@ == header_bytes(sequence_id, timestamp_ns, payload_size, compressed),
{
    bincode::serialize(&(sequence_id, timestamp_ns, payload_size, compressed))
        .expect("header fields always serialize")
}

/// Calls `bincode::deserialize` for the four header fields in order. It succeeds
/// exactly where there are enough bytes and the flag's byte is zero or one; bytes
/// behind the header are left alone.
#[verifier::external_body]
fn bincode_parse_header(bytes: &[u8]) -> (fields: Result<(u64, u64, u32, bool), bincode::Error>)
    ensures
        (fields is Ok) == (bytes@.len() >= 21 && (bytes@[20] == 0 || bytes@[20] == 1)),
        fields matches Ok(f) ==> f.0 == le_value(bytes@.subrange(0, 8)),
        fields matches Ok(f) ==> f.1 == le_value(bytes@.subrange(8, 16)),
        fields matches Ok(f) ==> f.2 == le_value(bytes@.subrange(16, 20)),
        fields matches Ok(f) ==> f.3 == (bytes@[20] == 1),
{
    bincode::deserialize(bytes)
}

/// What `lz4_flex::block::decompress_size_prepended` makes of `packed`, or `None`
/// where it reports an error.
pub uninterp spec fn lz4_expanded(packed: Seq<u8>) -> Option<Seq<u8>>;

/// `packed` is what compressing `plain` may give: the size of `plain` in four bytes,
/// then a block that is at most a tenth larger and that expands to `plain`, as long
/// as four bytes can hold its size.
pub open spec fn packs(packed: Seq<u8>, plain: Seq<u8>) -> bool {
    &&& 4 <= packed.len() <= 24 + plain.len() * 110 / 100
    &&& packed.take(4) == le_bytes(plain.len() % 0x1_0000_0000, 4)
    &&& plain.len() < 0x1_0000_0000 ==> lz4_expanded(packed) == Some(plain)
}

/// Calls `lz4_flex::block::compress_prepend_size`. Which of the blocks that expand to
/// the input comes back depends on the machine's word size and byte order, so only
/// what all of them share is claimed. Inputs whose size bound overflows are left out.
#[verifier::external_body]
fn lz4_pack(plain: &[u8]) -> (packed: Vec<u8>)
    requires
        plain@.len() * 110 <= usize::MAX,
    ensures
        4 <= packed@.len() <= 24 + plain@.len() * 110 / 100,
        packed@.take(4) == le_bytes(plain@.len() % 0x1_0000_0000, 4),
        plain@.len() < 0x1_0000_0000 ==> lz4_expanded(packed@) == Some(plain@),
{
    lz4_flex::block::compress_prepend_size(plain)
}

/// A payload of this size can be sent: it is either sent as it is, or small enough
/// that the bound on its compressed size can be computed.
pub open spec fn sendable(len: nat) -> bool {
    len < COMPRESSION_THRESHOLD || len * 110 <= usize::MAX
}

/// `bytes` is a packet that carries `payload` under this number and timestamp.
pub open spec fn encodes(
    bytes: Seq<u8>,
    sequence_id: u64,
    timestamp_ns: u64,
    payload: Seq<u8>,
) -> bool {
    let compressed = payload.len() >= COMPRESSION_THRESHOLD;
    let size = (payload.len() % 0x1_0000_0000) as u32;
    &&& bytes.len() >= HEADER_SIZE
    &&& bytes.take(HEADER_SIZE as int) == header_bytes(sequence_id, timestamp_ns, size, compressed)
    &&& if compressed {
        packs(bytes.skip(HEADER_SIZE as int), payload)
    } else {
        bytes.skip(HEADER_SIZE as int) == payload
    }
}

/// `bytes` is a packet that carries `payload` under this number and some timestamp.
pub open spec fn encodes_sometime(bytes: Seq<u8>, sequence_id: u64, payload: Seq<u8>) -> bool {
    exists|timestamp_ns: u64| #[trigger] encodes(bytes, sequence_id, timestamp_ns, payload)
}

/// `bytes` is a packet that carries `payload` under this number, stamped with a reading of
/// the system clock.
pub open spec fn encodes_now(bytes: Seq<u8>, sequence_id: u64, payload: Seq<u8>) -> bool {
    exists|timestamp_ns: u64| #[trigger]
        encodes(bytes, sequence_id, timestamp_ns, payload) && clock_gave(Ok(timestamp_ns))
}

/// The packet that `bytes` decode to, or why they are none.
pub open spec fn decodes_to(
    bytes: Seq<u8>,
    decoded: Result<WireBlastPacket, WireError>,
) -> bool {
    if bytes.len() < HEADER_SIZE {
        decoded == Err::<WireBlastPacket, WireError>(WireError::TooSmall { len: bytes.len() as usize })
    } else if bytes[20] > 1 {
        decoded == Err::<WireBlastPacket, WireError>(WireError::InvalidHeader { flag: bytes[20] })
    } else {
        &&& decoded matches Ok(packet)
        &&& packet.sequence_id == le_value(bytes.subrange(0, 8))
        &&& packet.timestamp_ns == le_value(bytes.subrange(8, 16))
        &&& packet.payload_size == le_value(bytes.subrange(16, 20))
        &&& packet.compressed == (bytes[20] == 1)
        &&& packet.payload@ == bytes.skip(HEADER_SIZE as int)
    }
}

/// The number and the payload size of the packet that `bytes` decode to, or why they are
/// none.
pub open spec fn decoded_as(bytes: Seq<u8>) -> Result<(u64, u32), WireError> {
    if bytes.len() < HEADER_SIZE {
        Err(WireError::TooSmall { len: bytes.len() as usize })
    } else if bytes[20] > 1 {
        Err(WireError::InvalidHeader { flag: bytes[20] })
    } else {
        Ok((le_value(bytes.subrange(0, 8)) as u64, le_value(bytes.subrange(16, 20)) as u32))
    }
}

/// The payload that a packet stands for: expanded where it came compressed.
pub open spec fn carried_payload(packet: WireBlastPacket) -> Option<Seq<u8>> {
    if packet.compressed {
        lz4_expanded(packet.payload@)
    } else {
        Some(packet.payload@)
    }
}

proof fn lemma_header_len(sequence_id: u64, timestamp_ns: u64, payload_size: u32, compressed: bool)
    ensures
        header_bytes(sequence_id, timestamp_ns, payload_size, compressed).len() == HEADER_SIZE,
{
    lemma_le_bytes_len(sequence_id as nat, 8);
    lemma_le_bytes_len(timestamp_ns as nat, 8);
    lemma_le_bytes_len(payload_size as nat, 4);
}

/// Puts the header in front of the bytes to send. `payload_len` is the size before
/// compression; the header has room for its low 32 bits.
pub fn assemble_packet(
    sequence_id: u64,
    timestamp_ns: u64,
    payload_len: usize,
    compressed: bool,
    data: Vec<u8>,
) -> (bytes: Vec<u8>)
    ensures
        bytes@ == header_bytes(
            sequence_id,
            timestamp_ns,
            (payload_len as nat % 0x1_0000_0000) as u32,
            compressed,
        ) + data@,
{
    let payload_size: u32 = low_u32(payload_len);
    let mut bytes: Vec<u8> = bincode_header(sequence_id, timestamp_ns, payload_size, compressed);
    let mut data = data;
    bytes.append(&mut data);
    bytes
}

/// The low 32 bits of a length.
pub fn low_u32(len: usize) -> (low: u32)
    ensures
        low == len as nat % 0x1_0000_0000,
{
    let wide: u64 = len as u64;
    let low: u32 = #[verifier::truncate] (wide as u32);
    assert(low as u64 == wide % 0x1_0000_0000u64) by (bit_vector)
        requires
            low == wide as u32,
    ;
    low
}

/// Encodes a packet under a given timestamp: the header, then the payload, compressed
/// where it reaches [`COMPRESSION_THRESHOLD`].
pub fn encode_packet(sequence_id: u64, timestamp_ns: u64, payload: Vec<u8>) -> (bytes: Vec<u8>)
    requires
        sendable(payload@.len()),
    ensures
        encodes(bytes@, sequence_id, timestamp_ns, payload@),
{
    let payload_len: usize = payload.len();
    let compressed = payload_len >= COMPRESSION_THRESHOLD;
    let ghost plain = payload@;
    let data = if compressed {
        lz4_pack(payload.as_slice())
    } else {
        payload
    };
    let ghost body = data@;
    let bytes = assemble_packet(sequence_id, timestamp_ns, payload_len, compressed, data);
    proof {
        let size = (plain.len() % 0x1_0000_0000) as u32;
        lemma_header_len(sequence_id, timestamp_ns, size, compressed);
        let header = header_bytes(sequence_id, timestamp_ns, size, compressed);
        assert(bytes@.take(HEADER_SIZE as int) =~= header);
        assert(bytes@.skip(HEADER_SIZE as int) =~= body);
    }
    bytes
}

/// Encodes a packet under a timestamp read off the clock, or says that there was none.
pub fn encode_stamped(
    sequence_id: u64,
    payload: Vec<u8>,
    stamp: Result<u64, ClockBeforeEpoch>,
) -> (bytes: Result<Vec<u8>, ClockBeforeEpoch>)
    requires
        sendable(payload@.len()),
    ensures
        match stamp {
            Ok(timestamp_ns) => bytes matches Ok(b) && encodes(
                b@,
                sequence_id,
                timestamp_ns,
                payload@,
            ),
            Err(e) => bytes == Err::<Vec<u8>, ClockBeforeEpoch>(e),
        },
{
    match stamp {
        Ok(timestamp_ns) => Ok(encode_packet(sequence_id, timestamp_ns, payload)),
        Err(e) => Err(e),
    }
}

/// Encodes a packet under the current time, and records how long that took. It fails
/// only where the system clock shows a moment before the Unix epoch, and then records
/// nothing; [`encode_stamped`] says what comes of each reading.
pub fn encode_and_serialize(
    seq_id: u64,
    payload: Vec<u8>,
    metrics: &mut SerdeMetrics,
) -> (bytes: Result<Vec<u8>, ClockBeforeEpoch>)
    requires
        sendable(payload@.len()),
    ensures
        bytes matches Ok(b) ==> encodes_sometime(b@, seq_id, payload@),
        bytes matches Ok(b) ==> encodes_now(b@, seq_id, payload@),
        bytes is Ok ==> one_more(old(metrics)@, final(metrics)@),
        bytes is Ok ==> timed(final(metrics)@.last()),
        bytes is Err ==> final(metrics)@ == old(metrics)@,
        bytes is Err ==> clock_gave(Err(ClockBeforeEpoch)),
{
    let start = start_stopwatch();
    let ghost plain = payload@;
    let stamp = now_ns();
    match encode_stamped(seq_id, payload, stamp) {
        Ok(bytes) => {
            assert(encodes_sometime(bytes@, seq_id, plain));
            assert(clock_gave(Ok(stamp->Ok_0)));
            assert(encodes_now(bytes@, seq_id, plain));
            let took_ns: u64 = elapsed_ns(&start);
            metrics.record(took_ns);
            Ok(bytes)
        },
        Err(e) => Err(e),
    }
}

/// Decodes a packet: the header, and what follows it as the payload.
pub fn decode_packet(buf: &[u8]) -> (decoded: Result<WireBlastPacket, WireError>)
    ensures
        decodes_to(buf@, decoded),
{
    if buf.len() < HEADER_SIZE {
        return Err(WireError::TooSmall { len: buf.len() });
    }
    let header = vstd::slice::slice_subrange(buf, 0, HEADER_SIZE);
    proof {
        assert(header@.subrange(0, 8) =~= buf@.subrange(0, 8));
        assert(header@.subrange(8, 16) =~= buf@.subrange(8, 16));
        assert(header@.subrange(16, 20) =~= buf@.subrange(16, 20));
    }
    match bincode_parse_header(header) {
        Ok((sequence_id, timestamp_ns, payload_size, compressed)) => {
            let rest = vstd::slice::slice_subrange(buf, HEADER_SIZE, buf.len());
            let payload = vstd::slice::slice_to_vec(rest);
            assert(payload@ =~= buf@.skip(HEADER_SIZE as int));
            Ok(WireBlastPacket { sequence_id, timestamp_ns, payload_size, compressed, payload })
        },
        Err(_) => Err(WireError::InvalidHeader { flag: buf[HEADER_SIZE - 1] }),
    }
}

/// Decodes a packet, and records how long that took where it succeeds.
pub fn deserialize_packet(buf: &[u8], metrics: &mut SerdeMetrics) -> (decoded: Result<
    WireBlastPacket,
    WireError,
>)
    ensures
        decodes_to(buf@, decoded),
        match decoded {
            Ok(_) => one_more(old(metrics)@, final(metrics)@) && timed(final(metrics)@.last()),
            Err(_) => final(metrics)@ == old(metrics)@,
        },
{
    let start = start_stopwatch();
    match decode_packet(buf) {
        Ok(packet) => {
            let took_ns: u64 = elapsed_ns(&start);
            metrics.record(took_ns);
            Ok(packet)
        },
        Err(e) => Err(e),
    }
}

/// The fields of a header read back from its bytes.
proof fn lemma_header_fields(bytes: Seq<u8>, seq: u64, ts: u64, size: u32, compressed: bool)
    requires
        bytes.len() >= HEADER_SIZE,
        bytes.take(HEADER_SIZE as int) == header_bytes(seq, ts, size, compressed),
    ensures
        le_value(bytes.subrange(0, 8)) == seq,
        le_value(bytes.subrange(8, 16)) == ts,
        le_value(bytes.subrange(16, 20)) == size,
        bytes[20] == if compressed { 1u8 } else { 0u8 },
{
    let header = header_bytes(seq, ts, size, compressed);
    lemma_le_bytes_len(seq as nat, 8);
    lemma_le_bytes_len(ts as nat, 8);
    lemma_le_bytes_len(size as nat, 4);
    lemma_byte_span_values();
    law_le_roundtrip(seq as nat, 8);
    law_le_roundtrip(ts as nat, 8);
    law_le_roundtrip(size as nat, 4);
    assert forall|i: int| 0 <= i < HEADER_SIZE implies bytes[i] == header[i] by {
        assert(bytes.take(HEADER_SIZE as int)[i] == header[i]);
    }
    assert(bytes.subrange(0, 8) =~= le_bytes(seq as nat, 8));
    assert(bytes.subrange(8, 16) =~= le_bytes(ts as nat, 8));
    assert(bytes.subrange(16, 20) =~= le_bytes(size as nat, 4));
}

/// What a server reads off an encoded packet.
pub proof fn lemma_encoded_header(
    bytes: Seq<u8>,
    sequence_id: u64,
    timestamp_ns: u64,
    payload: Seq<u8>,
)
    requires
        encodes(bytes, sequence_id, timestamp_ns, payload),
    ensures
        decoded_as(bytes) == Ok::<(u64, u32), WireError>(
            (sequence_id, (payload.len() % 0x1_0000_0000) as u32),
        ),
{
    lemma_header_fields(
        bytes,
        sequence_id,
        timestamp_ns,
        (payload.len() % 0x1_0000_0000) as u32,
        payload.len() >= COMPRESSION_THRESHOLD,
    );
}

/// Decoding an encoded packet gives back its number, its timestamp and the size of its
/// payload, says whether the payload was compressed, and carries the payload itself.
/// Sizes beyond 32 bits have no room in the header, and are left out.
pub proof fn law_decode_gives_back_what_was_encoded(
    bytes: Seq<u8>,
    sequence_id: u64,
    timestamp_ns: u64,
    payload: Seq<u8>,
    decoded: Result<WireBlastPacket, WireError>,
)
    requires
        encodes(bytes, sequence_id, timestamp_ns, payload),
        decodes_to(bytes, decoded),
        payload.len() < 0x1_0000_0000,
    ensures
        decoded matches Ok(packet) && packet.sequence_id == sequence_id && packet.timestamp_ns
            == timestamp_ns && packet.payload_size == payload.len() && packet.compressed == (
        payload.len() >= COMPRESSION_THRESHOLD) && carried_payload(packet) == Some(payload),
{
    let size = (payload.len() % 0x1_0000_0000) as u32;
    lemma_header_fields(
        bytes,
        sequence_id,
        timestamp_ns,
        size,
        payload.len() >= COMPRESSION_THRESHOLD,
    );
}

/// A payload below the threshold arrives byte for byte as it was sent.
pub proof fn law_small_payload_travels_as_is(
    bytes: Seq<u8>,
    sequence_id: u64,
    timestamp_ns: u64,
    payload: Seq<u8>,
    decoded: Result<WireBlastPacket, WireError>,
)
    requires
        encodes(bytes, sequence_id, timestamp_ns, payload),
        decodes_to(bytes, decoded),
        payload.len() < COMPRESSION_THRESHOLD,
    ensures
        decoded matches Ok(packet) && !packet.compressed && packet.payload@ == payload,
        bytes.len() == HEADER_SIZE + payload.len(),
{
    lemma_header_fields(
        bytes,
        sequence_id,
        timestamp_ns,
        (payload.len() % 0x1_0000_0000) as u32,
        false,
    );
}

/// A compressed payload starts with its own size, the same four bytes that stand in the
/// header.
pub proof fn law_compressed_payload_repeats_its_size(
    bytes: Seq<u8>,
    sequence_id: u64,
    timestamp_ns: u64,
    payload: Seq<u8>,
)
    requires
        encodes(bytes, sequence_id, timestamp_ns, payload),
        payload.len() >= COMPRESSION_THRESHOLD,
    ensures
        bytes.len() >= HEADER_SIZE + 4,
        bytes.subrange(16, 20) == bytes.subrange(HEADER_SIZE as int, HEADER_SIZE + 4),
{
    let size = (payload.len() % 0x1_0000_0000) as u32;
    let header = header_bytes(sequence_id, timestamp_ns, size, true);
    lemma_le_bytes_len(sequence_id as nat, 8);
    lemma_le_bytes_len(timestamp_ns as nat, 8);
    lemma_le_bytes_len(size as nat, 4);
    let body = bytes.skip(HEADER_SIZE as int);
    assert forall|i: int| 0 <= i < HEADER_SIZE implies bytes[i] == header[i] by {
        assert(bytes.take(HEADER_SIZE as int)[i] == header[i]);
    }
    assert(bytes.subrange(16, 20) =~= le_bytes(size as nat, 4));
    assert(bytes.subrange(HEADER_SIZE as int, HEADER_SIZE + 4) =~= body.take(4));
}

/// No two different packets share an encoding.
pub proof fn law_encoding_is_unambiguous(
    bytes: Seq<u8>,
    sequence_a: u64,
    timestamp_a: u64,
    payload_a: Seq<u8>,
    sequence_b: u64,
    timestamp_b: u64,
    payload_b: Seq<u8>,
)
    requires
        encodes(bytes, sequence_a, timestamp_a, payload_a),
        encodes(bytes, sequence_b, timestamp_b, payload_b),
        payload_a.len() < 0x1_0000_0000,
        payload_b.len() < 0x1_0000_0000,
    ensures
        sequence_a == sequence_b,
        timestamp_a == timestamp_b,
        payload_a == payload_b,
{
    let a = payload_a.len() >= COMPRESSION_THRESHOLD;
    let b = payload_b.len() >= COMPRESSION_THRESHOLD;
    lemma_header_fields(bytes, sequence_a, timestamp_a, payload_a.len() as u32, a);
    lemma_header_fields(bytes, sequence_b, timestamp_b, payload_b.len() as u32, b);
}

/// Decoding loses nothing: the packet's fields spell the bytes it was decoded from.
pub proof fn law_decoded_fields_spell_the_bytes(bytes: Seq<u8>, packet: WireBlastPacket)
    requires
        decodes_to(bytes, Ok(packet)),
    ensures
        bytes == header_bytes(
            packet.sequence_id,
            packet.timestamp_ns,
            packet.payload_size,
            packet.compressed,
        ) + packet.payload@,
{
    law_le_value_roundtrip(bytes.subrange(0, 8));
    law_le_value_roundtrip(bytes.subrange(8, 16));
    law_le_value_roundtrip(bytes.subrange(16, 20));
    let header = header_bytes(
        packet.sequence_id,
        packet.timestamp_ns,
        packet.payload_size,
        packet.compressed,
    );
    assert(header =~= bytes.subrange(0, 8) + bytes.subrange(8, 16) + bytes.subrange(16, 20)
        + seq![bytes[20]]);
    assert(bytes =~= header + packet.payload@);
}

/// A packet is at most a tenth larger than its payload, plus header and block overhead,
/// so a payload of up to a hundred mebibytes stays within [`MAX_STREAM_SIZE`].
pub proof fn law_packet_fits_a_stream(
    bytes: Seq<u8>,
    sequence_id: u64,
    timestamp_ns: u64,
    payload: Seq<u8>,
)
    requires
        encodes(bytes, sequence_id, timestamp_ns, payload),
    ensures
        bytes.len() <= HEADER_SIZE + 24 + payload.len() * 110 / 100,
        payload.len() <= 100 * 1024 * 1024 ==> bytes.len() <= MAX_STREAM_SIZE,
{
}

/// Where the parts of an encoded packet stand: eight bytes of number, eight of timestamp,
/// four of payload size, a flag, and from the 21st byte on the payload, as it is below
/// 512000 bytes and else compressed.
pub proof fn law_packet_layout(
    bytes: Seq<u8>,
    sequence_id: u64,
    timestamp_ns: u64,
    payload: Seq<u8>,
)
    requires
        encodes(bytes, sequence_id, timestamp_ns, payload),
    ensures
        bytes.len() >= 21,
        le_value(bytes.subrange(0, 8)) == sequence_id,
        le_value(bytes.subrange(8, 16)) == timestamp_ns,
        le_value(bytes.subrange(16, 20)) == payload.len() % 0x1_0000_0000,
        payload.len() < 512_000 ==> bytes[20] == 0 && bytes.skip(21) == payload,
        512_000 <= payload.len() ==> bytes[20] == 1,
        512_000 <= payload.len() < 0x1_0000_0000 ==> lz4_expanded(bytes.skip(21)) == Some(payload),
        MAX_STREAM_SIZE == 134_217_728,
{
    lemma_header_fields(
        bytes,
        sequence_id,
        timestamp_ns,
        (payload.len() % 0x1_0000_0000) as u32,
        payload.len() >= COMPRESSION_THRESHOLD,
    );
}

/// Bytes decode exactly where there are at least 21 of them and the last of those is zero or
/// one; else they are refused for the lack of bytes or for that byte.
pub proof fn law_what_decodes(bytes: Seq<u8>, decoded: Result<WireBlastPacket, WireError>)
    requires
        decodes_to(bytes, decoded),
        bytes.len() <= usize::MAX,
    ensures
        decoded is Ok <==> bytes.len() >= 21 && bytes[20] <= 1,
        bytes.len() < 21 ==> (decoded matches Err(WireError::TooSmall { len }) && len
            == bytes.len()),
        bytes.len() >= 21 && bytes[20] > 1 ==> (decoded matches Err(WireError::InvalidHeader { flag })
            && flag == bytes[20]),
        decoded matches Ok(packet) ==> packet.payload@.len() == bytes.len() - 21,
{
}

/// Every header decodes to the fields it was made of, whatever follows it, and what follows
/// is the payload.
pub proof fn law_every_header_decodes(
    sequence_id: u64,
    timestamp_ns: u64,
    payload_size: u32,
    compressed: bool,
    rest: Seq<u8>,
    decoded: Result<WireBlastPacket, WireError>,
)
    requires
        decodes_to(
            header_bytes(sequence_id, timestamp_ns, payload_size, compressed) + rest,
            decoded,
        ),
    ensures
        decoded matches Ok(packet) && packet.sequence_id == sequence_id && packet.timestamp_ns
            == timestamp_ns && packet.payload_size == payload_size && packet.compressed
            == compressed && packet.payload@ == rest,
{
    let header = header_bytes(sequence_id, timestamp_ns, payload_size, compressed);
    let bytes = header + rest;
    lemma_header_len(sequence_id, timestamp_ns, payload_size, compressed);
    assert(bytes.take(HEADER_SIZE as int) =~= header);
    assert(bytes.skip(HEADER_SIZE as int) =~= rest);
    lemma_header_fields(bytes, sequence_id, timestamp_ns, payload_size, compressed);
}

/// What a server goes by is what decoding gives: the number and the payload size of the
/// packet, or the same reason against it.
pub proof fn law_server_goes_by_decoding(
    bytes: Seq<u8>,
    decoded: Result<WireBlastPacket, WireError>,
)
    requires
        decodes_to(bytes, decoded),
    ensures
        match decoded {
            Ok(packet) => decoded_as(bytes) == Ok::<(u64, u32), WireError>(
                (packet.sequence_id, packet.payload_size),
            ),
            Err(e) => decoded_as(bytes) == Err::<(u64, u32), WireError>(e),
        },
{
}

/// What is said of an error ends with what it is about: the length that was too small and
/// the one that was needed, or the flag, each in decimal.
pub proof fn law_errors_are_told_with_their_numbers(len: usize, flag: u8)
    ensures
        error_text(WireError::TooSmall { len }) == "wire buffer too small: "@ + decimal(len as nat)
            + " < 21"@,
        error_text(WireError::InvalidHeader { flag })
            == "invalid u8 while decoding bool, expected 0 or 1, found "@ + decimal(flag as nat),
{
    reveal_strlit(" < ");
    reveal_strlit(" < 21");
    reveal_with_fuel(decimal, 3);
    assert(decimal(21) =~= seq!['2', '1']);
    assert(error_text(WireError::TooSmall { len }) =~= "wire buffer too small: "@ + decimal(
        len as nat,
    ) + " < 21"@);
}

/// A packet that is encoded now bears a reading of the system clock, unchanged, as its
/// timestamp: the nanoseconds since the Unix epoch, as long as 64 bits hold them.
pub proof fn law_packet_bears_the_reading(bytes: Seq<u8>, sequence_id: u64, payload: Seq<u8>)
    requires
        encodes_now(bytes, sequence_id, payload),
    ensures
        encodes_sometime(bytes, sequence_id, payload),
        exists|nanos: u128| #[trigger]
            clock_showed(Some(nanos)) && (nanos <= u64::MAX ==> le_value(bytes.subrange(8, 16))
                == nanos),
{
    let timestamp_ns = choose|timestamp_ns: u64| #[trigger]
        encodes(bytes, sequence_id, timestamp_ns, payload) && clock_gave(Ok(timestamp_ns));
    law_packet_layout(bytes, sequence_id, timestamp_ns, payload);
    law_timestamp_is_the_reading(Ok(timestamp_ns));
    let nanos = choose|nanos: u128| #[trigger]
        clock_showed(Some(nanos)) && (nanos - timestamp_ns) % 0x1_0000_0000_0000_0000 == 0 && (nanos
            <= u64::MAX ==> nanos == timestamp_ns);
    assert(clock_showed(Some(nanos)));
}

} // verus!
