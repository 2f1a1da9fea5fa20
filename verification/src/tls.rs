//! The certificate and the transport settings of the QUIC endpoints.

use crate::datagen::{lemma_table_sizes, SIZES};
use crate::wire::{encodes, law_packet_fits_a_stream, sendable, MAX_STREAM_SIZE};
use vstd::prelude::*;

verus! {

/// The name that the server's certificate is made out to.
pub const SERVER_NAME: &'static str = "localhost";

/// The protocol that both sides of a QUIC connection agree on.
pub const ALPN_PROTOCOL: &'static str = "blaster";

/// How much early data a resumed session may send: as much as it likes.
pub const MAX_EARLY_DATA: u32 = 0xffff_ffff;

/// How many tickets for resuming a session the server hands out per connection.
pub const SESSION_TICKETS: usize = 2;

/// How many sessions the client remembers.
pub const SESSION_CACHE: usize = 256;

/// The size asked of the system for the buffers of a UDP socket (8 MiB).
pub const SOCKET_BUFFER_SIZE: usize = 8 * 1024 * 1024;

/// The largest UDP payload an endpoint takes: the most that is allowed. The path's own
/// limit is found out while sending.
pub const MAX_UDP_PAYLOAD: u16 = 65_527;

/// The largest message that either side of the gRPC service takes (64 MiB).
pub const MAX_GRPC_MESSAGE: usize = 64 * 1024 * 1024;

/// How many gRPC messages may wait for the other side.
pub const GRPC_CHANNEL: usize = 1024;

/// A certificate and its key, each in DER.
pub struct CertPair {
    pub cert: Vec<u8>,
    /// In the PKCS #8 format.
    pub key: Vec<u8>,
}

/// No certificate could be made.
#[derive(Clone, Debug)]
pub struct CertError {
    /// Why, in words.
    pub reason: String,
}

/// Why `rcgen` could not make a certificate.
#[verifier::external_type_specification]
#[verifier::external_body]
pub struct ExRcgenError(rcgen::Error);

/// A name of lower-case letters that is short enough for its length to take one byte.
pub open spec fn plain_name(name: Seq<char>) -> bool {
    &&& 0 < name.len() < 128
    &&& forall|i: int| 0 <= i < name.len() ==> 'a' <= #[trigger] name[i] && name[i] <= 'z'
}

/// A name among the subject's alternative names: the tag of a DNS name, the length, and the
/// letters.
pub open spec fn dns_entry(name: Seq<char>) -> Seq<u8> {
    seq![0x82u8, name.len() as u8] + name.map_values(|c: char| c as u8)
}

/// `part` stands somewhere in `whole`.
pub open spec fn occurs_in(part: Seq<u8>, whole: Seq<u8>) -> bool {
    exists|i: int|
        0 <= i <= whole.len() - part.len() && #[trigger] whole.subrange(i, i + part.len()) == part
}

/// The certificate is made out to `name`: the entry for it stands in the certificate.
pub open spec fn made_out_to(cert: Seq<u8>, name: Seq<char>) -> bool {
    occurs_in(dns_entry(name), cert)
}

/// How many bytes a public key has: a byte that tells its form, and two numbers of 32 bytes.
pub const PUBLIC_KEY_SIZE: usize = 65;

/// The key belongs to the certificate: it ends with its public part, in uncompressed form,
/// and the certificate shows that public part.
pub open spec fn key_belongs(cert: Seq<u8>, key: Seq<u8>) -> bool {
    &&& key.len() > PUBLIC_KEY_SIZE
    &&& key[key.len() - PUBLIC_KEY_SIZE] == 4
    &&& occurs_in(key.skip(key.len() - PUBLIC_KEY_SIZE), cert)
}

/// Calls `rcgen::generate_simple_self_signed` for one name: the certificate and its key.
/// Where they come, the key ends with its public part, which the certificate shows too, and
/// for a name of letters, which is no IP address, the certificate holds the entry for that
/// name. The rest, and whether they come, rests on a key drawn at random and is left unsaid.
#[verifier::external_body]
fn self_signed(name: &str) -> (made: Result<(Vec<u8>, Vec<u8>), rcgen::Error>)
    ensures
        made matches Ok(m) ==> (plain_name(name@) ==> made_out_to(m.0@, name@)),
        made matches Ok(m) ==> key_belongs(m.0@, m.1@),
{
    match rcgen::generate_simple_self_signed(vec![name.to_owned()]) {
        Ok(made) => Ok((made.cert.der().to_vec(), made.key_pair.serialize_der())),
        Err(e) => Err(e),
    }
}

/// Calls `to_string` on an error of `rcgen`. The error is opaque, so nothing is claimed of
/// its words.
#[verifier::external_body]
fn rcgen_error_text(error: &rcgen::Error) -> (text: String) {
    error.to_string()
}

/// A certificate and its key came for `name`.
pub closed spec fn certificate_came(name: Seq<char>, cert: Seq<u8>, key: Seq<u8>) -> bool {
    exists|n: &str, made: (Vec<u8>, Vec<u8>)| #[trigger]
        call_ensures(self_signed, (n,), Ok(made)) && n@ == name && made.0@ == cert && made.1@
            == key
}

/// No certificate came for `name`, for the reason given.
pub closed spec fn certificate_failed(name: Seq<char>, reason: Seq<char>) -> bool {
    exists|n: &str, error: rcgen::Error, text: String|
        #![trigger call_ensures(self_signed, (n,), Err(error)), call_ensures(rcgen_error_text, (&error,), text)]
        call_ensures(self_signed, (n,), Err(error)) && call_ensures(
            rcgen_error_text,
            (&error,),
            text,
        ) && n@ == name && text@ == reason
}

/// The pair that was made, or why none was.
pub fn cert_pair(made: Result<(Vec<u8>, Vec<u8>), String>) -> (pair: Result<CertPair, CertError>)
    ensures
        match made {
            Ok(m) => pair matches Ok(p) && p.cert@ == m.0@ && p.key@ == m.1@,
            Err(reason) => pair matches Err(e) && e.reason@ == reason@,
        },
{
    match made {
        Ok((cert, key)) => Ok(CertPair { cert, key }),
        Err(reason) => Err(CertError { reason }),
    }
}

/// Makes a certificate for [`SERVER_NAME`] that is signed by its own key. Whichever comes is
/// made out to that name and shows the public part of the key. Which one comes, and whether
/// one does, rests on the system's random numbers; [`cert_pair`] says what is made of it.
pub fn generate_self_signed() -> (pair: Result<CertPair, CertError>)
    ensures
        pair matches Ok(p) ==> made_out_to(p.cert@, SERVER_NAME@),
        pair matches Ok(p) ==> key_belongs(p.cert@, p.key@),
        pair matches Ok(p) ==> certificate_came(SERVER_NAME@, p.cert@, p.key@),
        pair matches Err(e) ==> certificate_failed(SERVER_NAME@, e.reason@),
{
    proof {
        reveal_strlit("localhost");
        assert(plain_name(SERVER_NAME@));
    }
    match self_signed(SERVER_NAME) {
        Ok(made) => {
            assert(certificate_came(SERVER_NAME@, made.0@, made.1@));
            cert_pair(Ok(made))
        },
        Err(e) => {
            let reason = rcgen_error_text(&e);
            assert(certificate_failed(SERVER_NAME@, reason@));
            cert_pair(Err(reason))
        },
    }
}

/// The ways to find out how much a path can carry.
#[derive(Clone, Copy, Debug, PartialEq, Eq, Structural)]
pub enum CongestionControl {
    /// By measuring bandwidth and delay, which fills a path from the start.
    Bbr,
    /// By the losses, with a cubic growth between them.
    Cubic,
    /// By the losses, with a linear growth between them.
    NewReno,
}

/// How QUIC connections behave. Sizes are in bytes, times in seconds.
#[derive(Clone, Copy, Debug, PartialEq, Eq, Structural)]
pub struct TransportSettings {
    /// How much may be under way on one stream.
    pub stream_receive_window: u32,
    /// How much may be under way on one connection.
    pub receive_window: u32,
    /// How much may be sent without being acknowledged.
    pub send_window: u64,
    pub congestion_control: CongestionControl,
    /// How much congestion control lets through at the start.
    pub initial_window: u64,
    /// After how long without traffic a connection is given up.
    pub max_idle_timeout_secs: u64,
    /// After how long without traffic a sign of life is sent.
    pub keep_alive_secs: u64,
    pub initial_mtu: u16,
    pub min_mtu: u16,
    /// The buffer for datagrams that come in, where they are taken at all.
    pub datagram_receive_buffer: Option<usize>,
    pub segmentation_offload: bool,
    pub max_concurrent_uni_streams: u32,
}

/// The settings that both endpoints use.
pub open spec fn blaster_settings() -> TransportSettings {
    TransportSettings {
        stream_receive_window: 134_217_728,
        receive_window: 268_435_456,
        send_window: 134_217_728,
        congestion_control: CongestionControl::Bbr,
        initial_window: 33_554_432,
        max_idle_timeout_secs: 60,
        keep_alive_secs: 15,
        initial_mtu: 1400,
        min_mtu: 1200,
        datagram_receive_buffer: None,
        segmentation_offload: true,
        max_concurrent_uni_streams: 2048,
    }
}

/// The settings that both endpoints use: windows wide enough for payloads of 10 MB and more
/// (128 MiB per stream, 256 MiB per connection, 128 MiB to send, 32 MiB at the start), BBR,
/// a minute of idle time with a sign of life every quarter, packets of 1400 bytes to start
/// with and never below 1200, no datagrams, and up to 2048 streams at a time.
pub fn transport_settings() -> (settings: TransportSettings)
    ensures
        settings == blaster_settings(),
{
    TransportSettings {
        stream_receive_window: 128 * 1024 * 1024,
        receive_window: 256 * 1024 * 1024,
        send_window: 128 * 1024 * 1024,
        congestion_control: CongestionControl::Bbr,
        initial_window: 32 * 1024 * 1024,
        max_idle_timeout_secs: 60,
        keep_alive_secs: 15,
        initial_mtu: 1400,
        min_mtu: 1200,
        datagram_receive_buffer: None,
        segmentation_offload: true,
        max_concurrent_uni_streams: 2048,
    }
}

/// The settings fit together: a sign of life comes well before a connection is given up, no
/// packet starts out below the least or above the largest size, a connection takes in at
/// least two full streams, and a stream takes in the longest message that is accepted.
pub proof fn law_settings_fit_together()
    ensures
        2 * blaster_settings().keep_alive_secs < blaster_settings().max_idle_timeout_secs,
        1200 <= blaster_settings().min_mtu <= blaster_settings().initial_mtu <= MAX_UDP_PAYLOAD,
        2 * blaster_settings().stream_receive_window <= blaster_settings().receive_window,
        blaster_settings().initial_window <= blaster_settings().send_window,
        MAX_STREAM_SIZE <= blaster_settings().stream_receive_window,
{
}

/// A packet with a payload of any size on the table can be sent over every transport: it
/// can be encoded, fits in a frame for TCP, in a QUIC stream and its window, and its payload
/// in a gRPC message.
pub proof fn law_every_size_can_be_sent(
    i: int,
    bytes: Seq<u8>,
    sequence_id: u64,
    timestamp_ns: u64,
    payload: Seq<u8>,
)
    requires
        0 <= i < SIZES@.len(),
        payload.len() == SIZES@[i].1,
        encodes(bytes, sequence_id, timestamp_ns, payload),
    ensures
        sendable(payload.len()),
        bytes.len() < 0x1_0000_0000,
        bytes.len() <= MAX_STREAM_SIZE,
        bytes.len() <= blaster_settings().stream_receive_window,
        payload.len() + 1024 <= MAX_GRPC_MESSAGE,
{
    lemma_table_sizes();
    law_packet_fits_a_stream(bytes, sequence_id, timestamp_ns, payload);
}

/// What the settings come to in bytes and seconds.
pub proof fn law_settings_in_numbers()
    ensures
        blaster_settings().stream_receive_window == 128 * 0x10_0000,
        blaster_settings().receive_window == 256 * 0x10_0000,
        blaster_settings().send_window == 128 * 0x10_0000,
        blaster_settings().initial_window == 32 * 0x10_0000,
        blaster_settings().congestion_control is Bbr,
        blaster_settings().max_idle_timeout_secs == 60,
        blaster_settings().keep_alive_secs == 15,
        blaster_settings().initial_mtu == 1400,
        blaster_settings().min_mtu == 1200,
        blaster_settings().datagram_receive_buffer is None,
        blaster_settings().segmentation_offload,
        blaster_settings().max_concurrent_uni_streams == 2048,
        MAX_UDP_PAYLOAD == 65_527,
        SOCKET_BUFFER_SIZE == 8 * 0x10_0000,
        MAX_GRPC_MESSAGE == 64 * 0x10_0000,
        MAX_EARLY_DATA == u32::MAX,
        SESSION_TICKETS == 2,
        SESSION_CACHE == 256,
        GRPC_CHANNEL == 1024,
{
}

} // verus!
