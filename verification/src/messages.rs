//! The messages of the gRPC service.

use vstd::prelude::*;

verus! {

/// A packet sent over gRPC.
pub struct BlastPacket {
    pub sequence_id: u64,
    pub timestamp_ns: u64,
    pub payload_size: u32,
    pub payload: Vec<u8>,
}

/// The answer to a packet sent over gRPC.
#[derive(Clone, Copy, Debug, PartialEq, Eq, Structural)]
pub struct BlastAck {
    pub sequence_id: u64,
    pub received_at_ns: u64,
}

/// One packet's arrivals as the server reports them; zero stands for none.
#[derive(Clone, Copy, Debug, PartialEq, Eq, Structural)]
pub struct ArrivalEntry {
    pub sequence_id: u64,
    pub grpc_arrival_ns: u64,
    pub quic_arrival_ns: u64,
    pub tcp_arrival_ns: u64,
    pub payload_size: u32,
}

/// Timings of decoding as the server reports them. The mean is given by the bits of a
/// double-precision number of nanoseconds.
#[derive(Clone, Copy, Debug, PartialEq, Eq, Structural)]
pub struct SerdeStatsProto {
    pub count: u64,
    pub median_ns: u64,
    pub min_ns: u64,
    pub max_ns: u64,
    pub mean_bits: u64,
}

/// What the server reports: the arrivals, and how decoding fared where it says so.
pub struct BenchmarkReport {
    pub arrivals: Vec<ArrivalEntry>,
    pub quic_decode_stats: Option<SerdeStatsProto>,
    pub tcp_decode_stats: Option<SerdeStatsProto>,
}

} // verus!
