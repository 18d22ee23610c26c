//! Trojan: a hashed password and a target in front of the stream, and
//! addressed datagram frames.
use crate::address::{
    host_bytes, host_fits, host_len, law_host_spelled, law_spelled_host_read,
    lemma_host_round_trip, lemma_scan_prefix, push_host, read_host, scan_host, spells_host,
    HostScan, HostScanModel, Tags,
};
use crate::octets::{
    be16, be16_bytes, copy_range, drop_front, lemma_be16_round_trip, push_all, push_be16, read_be16,
};
use crate::crypto::{sha224, sha224_digest};
use crate::outbound::frame_writer::{closed, closed_message, WriteState};
use crate::outbound::tls_name::{chosen_name, name_view, server_name_fault, tls_server_name};
use crate::text::{decimal, decimal_text, join, utf8, utf8_error};
use crate::types::{Endpoint, EndpointModel, HostModel, IoError, IoErrorKind, OutboundError};
use vstd::prelude::*;

verus! {

/// The command that asks for a stream.
pub const CMD_CONNECT: u8 = 0x01;

pub const ATYP_IPV4: u8 = 0x01;

pub const ATYP_DOMAIN: u8 = 0x03;

pub const ATYP_IPV6: u8 = 0x04;

/// The tags of an address.
pub open spec fn tags() -> Tags {
    Tags { v4: ATYP_IPV4, domain: ATYP_DOMAIN, v6: ATYP_IPV6 }
}

fn wire_tags() -> (out: Tags)
    ensures
        out == tags(),
{
    Tags { v4: ATYP_IPV4, domain: ATYP_DOMAIN, v6: ATYP_IPV6 }
}

/// An endpoint on the wire: the host, then the port.
pub open spec fn endpoint_bytes(endpoint: EndpointModel) -> Seq<u8> {
    host_bytes(tags(), endpoint.host) + be16_bytes(endpoint.port)
}

/// Appends an endpoint; a name longer than 255 bytes is refused and nothing is
/// appended.
pub fn encode_endpoint(output: &mut Vec<u8>, endpoint: &Endpoint) -> (done: Result<
    (),
    OutboundError,
>)
    ensures
        done is Ok <==> host_fits(endpoint@.host),
        done is Ok ==> final(output)@ == old(output)@ + endpoint_bytes(endpoint@),
        done matches Err(error) ==> error.message@ == "trojan target domain exceeds 255 bytes"@
            && final(output)@ == old(output)@,
{
    if !push_host(output, wire_tags(), &endpoint.host) {
        return Err(OutboundError::new("trojan target domain exceeds 255 bytes"));
    }
    push_be16(output, endpoint.port);
    assert(output@ =~= old(output)@ + endpoint_bytes(endpoint@));
    Ok(())
}

/// The line break that frames end a header with.
pub open spec fn crlf() -> Seq<u8> {
    seq![13u8, 10u8]
}

/// The request header: the hashed password, the command and the target, with a
/// line break after the password and after the target.
pub open spec fn header_bytes(password_hash: Seq<u8>, command: u8, target: EndpointModel) -> Seq<
    u8,
> {
    password_hash + crlf() + seq![command] + endpoint_bytes(target) + crlf()
}

/// Builds the request header.
pub fn build_header(password_hash: &[u8; 56], command: u8, target: &Endpoint) -> (header: Result<
    Vec<u8>,
    OutboundError,
>)
    ensures
        header is Ok <==> host_fits(target@.host),
        header matches Ok(bytes) ==> bytes@ == header_bytes(password_hash@, command, target@),
        header matches Err(error) ==> error.message@ == "trojan target domain exceeds 255 bytes"@,
{
    let mut header: Vec<u8> = Vec::with_capacity(320);
    push_all(&mut header, password_hash);
    push_all(&mut header, &[13, 10]);
    header.push(command);
    match encode_endpoint(&mut header, target) {
        Ok(()) => {},
        Err(error) => return Err(error),
    }
    push_all(&mut header, &[13, 10]);
    assert(header@ =~= header_bytes(password_hash@, command, target@));
    Ok(header)
}

/// The lower-case hexadecimal digit of a nibble.
pub open spec fn hex_digit(nibble: u8) -> u8 {
    if nibble < 10 {
        (48 + nibble) as u8
    } else {
        (87 + nibble) as u8
    }
}

/// Lower-case hexadecimal: two digits for each byte.
pub open spec fn hex(bytes: Seq<u8>) -> Seq<u8> {
    Seq::new(
        2 * bytes.len(),
        |i: int|
            if i % 2 == 0 {
                hex_digit(bytes[i / 2] / 16)
            } else {
                hex_digit(bytes[i / 2] % 16)
            },
    )
}

/// Writes a nibble as a hexadecimal digit.
fn hex_of(nibble: u8) -> (digit: u8)
    requires
        nibble < 16,
    ensures
        digit == hex_digit(nibble),
{
    if nibble < 10 {
        48 + nibble
    } else {
        87 + nibble
    }
}

/// Writes `input` in hexadecimal to the front of `output`.
pub fn encode_hex(input: &[u8], output: &mut [u8; 56])
    requires
        input@.len() <= 28,
    ensures
        final(output)@ == hex(input@) + old(output)@.skip(2 * input@.len() as int),
{
    let ghost before = output@;
    for i in 0..input.len()
        invariant
            input@.len() <= 28,
            before.len() == 56,
            forall|j: int| 0 <= j < 2 * i ==> output@[j] == hex(input@)[j],
            forall|j: int| 2 * i <= j < 56 ==> output@[j] == before[j],
    {
        let byte: u8 = input[i];
        output[i * 2] = hex_of(byte / 16);
        output[i * 2 + 1] = hex_of(byte % 16);
        assert(hex(input@)[2 * i as int] == hex_digit(byte / 16));
        assert(hex(input@)[2 * i + 1] == hex_digit(byte % 16));
    }
    assert(output@ =~= hex(input@) + before.skip(2 * input@.len() as int));
}

/// A datagram frame: the endpoint, the payload's length, a line break and the
/// payload.
pub open spec fn frame_bytes(endpoint: EndpointModel, payload: Seq<u8>) -> Seq<u8> {
    endpoint_bytes(endpoint) + be16_bytes(payload.len() as u16) + crlf() + payload
}

/// A frame at the start of some bytes.
pub struct ParsedFrame {
    pub source: Endpoint,
    pub payload_offset: usize,
    pub payload_len: usize,
    pub frame_len: usize,
}

/// What stands at the start of a buffer of frames.
pub enum FrameModel {
    /// The frame is not complete.
    Incomplete,
    /// The bytes are no frame.
    Invalid(Seq<char>),
    /// A frame from `source`, its payload and its length.
    Complete { source: EndpointModel, payload: Seq<u8>, len: int },
}

/// Reads the frame at the start of `bytes`.
pub open spec fn frame_at_start(bytes: Seq<u8>) -> FrameModel {
    match scan_host(tags(), bytes, 0) {
        HostScanModel::Short => FrameModel::Incomplete,
        HostScanModel::BadText(text) => FrameModel::Invalid(
            "invalid trojan UDP domain: "@ + utf8_error(text),
        ),
        HostScanModel::Unknown(tag) => FrameModel::Invalid(
            "unsupported trojan UDP address type "@ + decimal(tag as nat),
        ),
        HostScanModel::Found(host, end) => {
            if bytes.len() < end + 6 {
                FrameModel::Incomplete
            } else if bytes[end + 4] != 13 || bytes[end + 5] != 10 {
                FrameModel::Invalid("invalid trojan UDP frame delimiter"@)
            } else {
                let len = be16(bytes[end + 2], bytes[end + 3]);
                if bytes.len() < end + 6 + len {
                    FrameModel::Incomplete
                } else {
                    FrameModel::Complete {
                        source: EndpointModel { host, port: be16(bytes[end], bytes[end + 1]) },
                        payload: bytes.subrange(end + 6, end + 6 + len),
                        len: end + 6 + len,
                    }
                }
            }
        },
    }
}

/// Whether a parse agrees with the model.
pub open spec fn parsed(
    result: Result<Option<ParsedFrame>, IoError>,
    bytes: Seq<u8>,
    model: FrameModel,
) -> bool {
    match model {
        FrameModel::Incomplete => result matches Ok(None),
        FrameModel::Invalid(message) => result matches Err(error) && error.says(
            IoErrorKind::InvalidInput,
            message,
        ),
        FrameModel::Complete { source, payload, len } => {
            &&& result matches Ok(Some(frame))
            &&& frame.source@ == source
            &&& frame.payload_offset + frame.payload_len == frame.frame_len == len
            &&& len <= bytes.len()
            &&& bytes.subrange(frame.payload_offset as int, frame.frame_len as int) == payload
        },
    }
}

/// Parses the frame at the start of `bytes`; `None` while it is incomplete.
pub fn parse_frame(bytes: &[u8]) -> (frame: Result<Option<ParsedFrame>, IoError>)
    ensures
        parsed(frame, bytes@, frame_at_start(bytes@)),
{
    let (host, address_end) = match read_host(wire_tags(), bytes, 0) {
        HostScan::Short => return Ok(None),
        HostScan::BadText(error) => return Err(
            IoError {
                kind: IoErrorKind::InvalidInput,
                message: join("invalid trojan UDP domain: ", error.as_str()),
            },
        ),
        HostScan::Unknown(tag) => {
            let number = decimal_text(tag as u64);
            return Err(
                IoError {
                    kind: IoErrorKind::InvalidInput,
                    message: join("unsupported trojan UDP address type ", number.as_str()),
                },
            );
        },
        HostScan::Found(host, end) => (host, end),
    };
    if bytes.len() - address_end < 6 {
        return Ok(None);
    }
    let header_end: usize = address_end + 6;
    let port = read_be16(bytes, address_end);
    let payload_len: usize = read_be16(bytes, address_end + 2) as usize;
    if bytes[address_end + 4] != 13 || bytes[address_end + 5] != 10 {
        return Err(IoError::new(IoErrorKind::InvalidInput, "invalid trojan UDP frame delimiter"));
    }
    if bytes.len() - header_end < payload_len {
        return Ok(None);
    }
    Ok(
        Some(
            ParsedFrame {
                source: Endpoint::new(host, port),
                payload_offset: header_end,
                payload_len,
                frame_len: header_end + payload_len,
            },
        ),
    )
}

/// A frame that was written is read back, with its payload, whatever follows
/// it.
pub proof fn law_frame_round_trip(endpoint: EndpointModel, payload: Seq<u8>, after: Seq<u8>)
    requires
        endpoint.host.wf(),
        host_fits(endpoint.host),
        payload.len() <= 0xffff,
    ensures
        frame_at_start(frame_bytes(endpoint, payload) + after) == (FrameModel::Complete {
            source: endpoint,
            payload,
            len: frame_bytes(endpoint, payload).len() as int,
        }),
{
    let host = host_bytes(tags(), endpoint.host);
    let end = host.len() as int;
    let bytes = frame_bytes(endpoint, payload) + after;
    let rest = be16_bytes(endpoint.port) + be16_bytes(payload.len() as u16) + crlf() + payload
        + after;
    assert(bytes.skip(0) =~= host + rest);
    lemma_host_round_trip(tags(), endpoint.host, bytes, 0, rest);
    lemma_be16_round_trip(endpoint.port);
    lemma_be16_round_trip(payload.len() as u16);
    assert(bytes[end] == be16_bytes(endpoint.port)[0]);
    assert(bytes[end + 1] == be16_bytes(endpoint.port)[1]);
    assert(bytes[end + 2] == be16_bytes(payload.len() as u16)[0]);
    assert(bytes[end + 3] == be16_bytes(payload.len() as u16)[1]);
    assert(bytes[end + 4] == crlf()[0]);
    assert(bytes[end + 5] == crlf()[1]);
    assert(bytes.subrange(end + 6, end + 6 + payload.len()) =~= payload);
}

/// A frame that is complete stays the same when more bytes arrive, and so does
/// a fault.
pub proof fn law_frame_prefix(bytes: Seq<u8>, more: Seq<u8>)
    requires
        !(frame_at_start(bytes) is Incomplete),
    ensures
        frame_at_start(bytes + more) == frame_at_start(bytes),
{
    lemma_scan_prefix(tags(), bytes, more, 0);
    match scan_host(tags(), bytes, 0) {
        HostScanModel::Found(host, end) => {
            let long = bytes + more;
            assert(long[end] == bytes[end]);
            assert(long[end + 1] == bytes[end + 1]);
            assert(long[end + 2] == bytes[end + 2]);
            assert(long[end + 3] == bytes[end + 3]);
            assert(long[end + 4] == bytes[end + 4]);
            assert(long[end + 5] == bytes[end + 5]);
            let len = be16(bytes[end + 2], bytes[end + 3]);
            if bytes.len() >= end + 6 + len {
                assert(long.subrange(end + 6, end + 6 + len) =~= bytes.subrange(
                    end + 6,
                    end + 6 + len,
                ));
            }
        },
        _ => {},
    }
}

/// What to do next to receive a datagram.
pub enum RecvStep {
    /// Read more bytes from the stream.
    Read,
    /// A datagram arrived.
    Packet { payload: Vec<u8>, source: Endpoint },
    /// Receiving failed.
    Fail(IoError),
}

/// The same over plain values.
pub enum RecvModel {
    Read,
    Packet(Seq<u8>, EndpointModel),
    Fail,
}

impl RecvStep {
    pub open spec fn view(&self) -> RecvModel {
        match *self {
            RecvStep::Read => RecvModel::Read,
            RecvStep::Packet { payload, source } => RecvModel::Packet(payload@, source@),
            RecvStep::Fail(_) => RecvModel::Fail,
        }
    }
}

/// What is received of a buffer, with room for `capacity` bytes, and what stays
/// in the buffer.
pub open spec fn taken(buffer: Seq<u8>, capacity: nat) -> (RecvModel, Seq<u8>) {
    match frame_at_start(buffer) {
        FrameModel::Incomplete => (RecvModel::Read, buffer),
        FrameModel::Invalid(_) => (RecvModel::Fail, buffer),
        FrameModel::Complete { source, payload, len } => (
            if payload.len() <= capacity {
                RecvModel::Packet(payload, source)
            } else {
                RecvModel::Fail
            },
            buffer.skip(len),
        ),
    }
}

/// Datagrams over one stream.
pub struct TrojanDatagram {
    pub read_buffer: Vec<u8>,
    pub write: WriteState,
}

impl TrojanDatagram {
    pub fn new() -> (datagram: TrojanDatagram)
        ensures
            datagram.read_buffer@ == Seq::<u8>::empty(),
            datagram.write is Idle,
            datagram.write.wf(),
    {
        TrojanDatagram { read_buffer: Vec::new(), write: WriteState::Idle }
    }

    /// Takes the next datagram out of the buffer, where one is complete. A
    /// payload of more than `capacity` bytes is dropped with an error; bytes
    /// that are no frame stay.
    pub fn poll_recv_from(&mut self, capacity: usize) -> (step: RecvStep)
        ensures
            final(self).write == old(self).write,
            match frame_at_start(old(self).read_buffer@) {
                FrameModel::Incomplete => step is Read && final(self).read_buffer
                    == old(self).read_buffer,
                FrameModel::Invalid(message) => {
                    &&& step matches RecvStep::Fail(error)
                    &&& error.says(IoErrorKind::InvalidInput, message)
                    &&& final(self).read_buffer == old(self).read_buffer
                },
                FrameModel::Complete { source, payload, len } => {
                    &&& final(self).read_buffer@ == old(self).read_buffer@.skip(len)
                    &&& payload.len() <= capacity ==> {
                        &&& step matches RecvStep::Packet { payload: out, source: from }
                        &&& out@ == payload
                        &&& from@ == source
                    }
                    &&& payload.len() > capacity ==> {
                        &&& step matches RecvStep::Fail(error)
                        &&& error.says(
                            IoErrorKind::InvalidInput,
                            "trojan UDP payload of "@ + decimal(payload.len())
                                + " bytes exceeds receive buffer"@,
                        )
                    }
                },
            },
            (step@, final(self).read_buffer@) == taken(old(self).read_buffer@, capacity as nat),
    {
        match parse_frame(self.read_buffer.as_slice()) {
            Ok(None) => RecvStep::Read,
            Err(error) => RecvStep::Fail(error),
            Ok(Some(frame)) => {
                let payload = copy_range(
                    self.read_buffer.as_slice(),
                    frame.payload_offset,
                    frame.frame_len,
                );
                drop_front(&mut self.read_buffer, frame.frame_len);
                if frame.payload_len > capacity {
                    let number = decimal_text(frame.payload_len as u64);
                    let head = join("trojan UDP payload of ", number.as_str());
                    RecvStep::Fail(
                        IoError {
                            kind: IoErrorKind::InvalidInput,
                            message: join(head.as_str(), " bytes exceeds receive buffer"),
                        },
                    )
                } else {
                    RecvStep::Packet { payload, source: frame.source }
                }
            },
        }
    }

    /// The stream gave some bytes; none means that it is closed.
    pub fn received(&mut self, bytes: &[u8]) -> (done: Result<(), IoError>)
        ensures
            final(self).write == old(self).write,
            final(self).read_buffer@ == old(self).read_buffer@ + bytes@,
            done is Err <==> bytes@.len() == 0,
            done matches Err(error) ==> error.says(
                IoErrorKind::Closed,
                closed_message("read trojan UDP frame"@),
            ),
    {
        push_all(&mut self.read_buffer, bytes);
        if bytes.len() == 0 {
            return Err(closed("read trojan UDP frame"));
        }
        Ok(())
    }

    /// Begins to send a datagram, unless one is already under way; a payload
    /// or a name that does not fit a frame is refused.
    pub fn poll_send_to(&mut self, payload: &[u8], target: &Endpoint) -> (done: Result<(), IoError>)
        requires
            old(self).write.wf(),
        ensures
            final(self).read_buffer == old(self).read_buffer,
            final(self).write.wf(),
            !(old(self).write is Idle) ==> done is Ok && final(self).write == old(self).write,
            old(self).write is Idle ==> (if payload@.len() > 0xffff {
                &&& done matches Err(error)
                &&& error.says(
                    IoErrorKind::InvalidInput,
                    "trojan UDP payload exceeds 65535 bytes"@,
                )
                &&& final(self).write is Idle
            } else if !host_fits(target@.host) {
                &&& done matches Err(error)
                &&& error.says(
                    IoErrorKind::InvalidInput,
                    "trojan target domain exceeds 255 bytes"@,
                )
                &&& final(self).write is Idle
            } else {
                &&& done is Ok
                &&& final(self).write is Frame
                &&& final(self).write.unwritten() == frame_bytes(target@, payload@)
                &&& final(self).write.payload() == Some(payload.len())
            }),
    {
        match self.write {
            WriteState::Idle => {},
            _ => return Ok(()),
        }
        if payload.len() > 0xffff {
            return Err(
                IoError::new(IoErrorKind::InvalidInput, "trojan UDP payload exceeds 65535 bytes"),
            );
        }
        let mut bytes: Vec<u8> = Vec::new();
        match encode_endpoint(&mut bytes, target) {
            Ok(()) => {},
            Err(error) => return Err(
                IoError { kind: IoErrorKind::InvalidInput, message: error.message },
            ),
        }
        push_be16(&mut bytes, payload.len() as u16);
        push_all(&mut bytes, &[13, 10]);
        push_all(&mut bytes, payload);
        assert(bytes@ =~= frame_bytes(target@, payload@));
        self.write = WriteState::begin(bytes, payload.len());
        Ok(())
    }

    /// The stream took `count` bytes of the frame under way; none means that it
    /// is closed.
    pub fn wrote(&mut self, count: usize) -> (done: Result<(), IoError>)
        requires
            old(self).write.wf(),
            old(self).write is Frame,
            count <= old(self).write.unwritten().len(),
        ensures
            final(self).write.wf(),
            final(self).read_buffer == old(self).read_buffer,
            final(self).write.payload() == old(self).write.payload(),
            final(self).write.unwritten() == old(self).write.unwritten().skip(count as int),
            (final(self).write is Flush) == (count == old(self).write.unwritten().len()),
            (final(self).write is Frame) == (count < old(self).write.unwritten().len()),
            done is Err <==> count == 0,
            done matches Err(error) ==> error.says(IoErrorKind::Closed, closed_message("write trojan UDP frame"@)),
    {
        let error = closed("write trojan UDP frame");
        self.write.wrote(count, error.message.as_str())
    }
}

/// TLS policy of a trojan server.
#[derive(Clone, Debug, Default, PartialEq, Eq)]
pub struct TrojanTlsConfig {
    pub server_name: Option<String>,
    pub insecure: bool,
    pub alpn: Vec<String>,
}

/// A configuration that cannot be used.
#[derive(Clone, Debug, PartialEq, Eq)]
pub struct TrojanConfigError {
    pub message: String,
}

/// A trojan server and how to ask it for a stream.
pub struct TrojanOutbound {
    pub server: Endpoint,
    pub password_hash: [u8; 56],
    pub server_name: String,
    pub tls: TrojanTlsConfig,
}

/// Why a configuration is refused; `None` where it is not.
pub open spec fn config_fault(
    host_text: Seq<char>,
    password: Seq<char>,
    configured: Option<Seq<char>>,
) -> Option<Seq<char>> {
    if password.len() == 0 {
        Some("trojan password must not be empty"@)
    } else {
        server_name_fault("trojan"@, chosen_name(configured, host_text))
    }
}

impl TrojanOutbound {
    /// Checks a configuration; `host_text` is the server's host in text form.
    pub fn new(
        server: Endpoint,
        host_text: &str,
        password: &str,
        tls: TrojanTlsConfig,
    ) -> (outbound: Result<TrojanOutbound, TrojanConfigError>)
        ensures
            ({
                let configured = name_view(tls.server_name);
                let fault = config_fault(host_text@, password@, configured);
                &&& outbound is Err <==> fault is Some
                &&& outbound matches Err(error) ==> Some(error.message@) == fault
                &&& outbound matches Ok(outbound) ==> {
                    &&& outbound.server == server
                    &&& outbound.tls == tls
                    &&& outbound.password_hash@ == hex(sha224_digest(utf8(password@)))
                    &&& outbound.password_hash@ == hashed(password@)
                    &&& outbound.server_name@ == chosen_name(configured, host_text@)
                }
            }),
    {
        if password.is_empty() {
            return Err(
                TrojanConfigError { message: String::from("trojan password must not be empty") },
            );
        }
        let digest = sha224(password.as_bytes());
        let mut password_hash: [u8; 56] = [0; 56];
        encode_hex(&digest, &mut password_hash);
        assert(password_hash@ =~= hex(digest@));
        match tls_server_name("trojan", &tls.server_name, host_text) {
            Ok(server_name) => Ok(TrojanOutbound { server, password_hash, server_name, tls }),
            Err(message) => Err(TrojanConfigError { message }),
        }
    }

    /// The bytes that ask the server for a stream to `target`.
    pub fn connect(&self, target: &Endpoint) -> (header: Result<Vec<u8>, OutboundError>)
        ensures
            header is Ok <==> host_fits(target@.host),
            header matches Ok(bytes) ==> bytes@ == header_bytes(
                self.password_hash@,
                CMD_CONNECT,
                target@,
            ),
            header matches Err(error) ==> error.message@
                == "trojan target domain exceeds 255 bytes"@,
    {
        build_header(&self.password_hash, CMD_CONNECT, target)
    }

    /// Datagrams are not offered.
    pub fn open_datagram(&self) -> (error: OutboundError)
        ensures
            error.message@ == "trojan UDP-over-TCP is not wired into RustBox yet"@,
    {
        OutboundError::new("trojan UDP-over-TCP is not wired into RustBox yet")
    }
}

/// What a server reads of a request: the fifty-six bytes of the hashed password,
/// a line break, the command, the target with the tags one, three and four, its
/// port, and a line break.
pub proof fn law_header_layout(password_hash: Seq<u8>, command: u8, target: EndpointModel)
    requires
        password_hash.len() == 56,
        target.host.wf(),
        host_fits(target.host),
    ensures
        ({
            let bytes = header_bytes(password_hash, command, target);
            let end = 59 + host_len(target.host);
            &&& bytes.len() == end + 4
            &&& bytes.take(56) == password_hash
            &&& bytes[56] == 13 && bytes[57] == 10
            &&& bytes[58] == command
            &&& spells_host(bytes, 59, 1, 3, 4, target.host)
            &&& bytes[end] * 256 + bytes[end + 1] == target.port
            &&& bytes[end + 2] == 13 && bytes[end + 3] == 10
        }),
        CMD_CONNECT == 1,
{
    let before = password_hash + crlf() + seq![command];
    let after = be16_bytes(target.port) + crlf();
    let bytes = header_bytes(password_hash, command, target);
    assert(bytes =~= before + host_bytes(tags(), target.host) + after);
    law_host_spelled(tags(), target.host, before, after);
    assert(bytes.take(56) =~= password_hash);
    let end = 59 + host_len(target.host);
    assert(bytes[end] == after[0] && bytes[end + 1] == after[1]);
}

/// What a datagram's frame holds: the endpoint and its port, the length of the
/// payload, a line break, and the payload.
pub proof fn law_frame_layout(endpoint: EndpointModel, payload: Seq<u8>)
    requires
        endpoint.host.wf(),
        host_fits(endpoint.host),
        payload.len() <= 0xffff,
    ensures
        ({
            let bytes = frame_bytes(endpoint, payload);
            let end = host_len(endpoint.host);
            &&& bytes.len() == end + 6 + payload.len()
            &&& spells_host(bytes, 0, 1, 3, 4, endpoint.host)
            &&& bytes[end] * 256 + bytes[end + 1] == endpoint.port
            &&& bytes[end + 2] * 256 + bytes[end + 3] == payload.len()
            &&& bytes[end + 4] == 13 && bytes[end + 5] == 10
            &&& bytes.skip(end + 6) == payload
        }),
{
    let after = be16_bytes(endpoint.port) + be16_bytes(payload.len() as u16) + crlf() + payload;
    let none = Seq::<u8>::empty();
    let bytes = frame_bytes(endpoint, payload);
    assert(bytes =~= none + host_bytes(tags(), endpoint.host) + after);
    law_host_spelled(tags(), endpoint.host, none, after);
    let end = host_len(endpoint.host);
    assert(bytes.skip(end + 6) =~= payload);
    assert(bytes[end] == after[0] && bytes[end + 1] == after[1] && bytes[end + 2] == after[2]
        && bytes[end + 3] == after[3]);
}

/// A frame that breaks off is waited for, and one whose line break is missing is
/// refused.
pub proof fn law_frame_refused(bytes: Seq<u8>, host: HostModel, end: int)
    requires
        spells_host(bytes, 0, 1, 3, 4, host),
        host.wf(),
        end == host_len(host),
    ensures
        bytes.len() < end + 6 ==> frame_at_start(bytes) is Incomplete,
        bytes.len() >= end + 6 && (bytes[end + 4] != 13 || bytes[end + 5] != 10)
            ==> frame_at_start(bytes) is Invalid,
        bytes.len() >= end + 6 && bytes[end + 4] == 13 && bytes[end + 5] == 10 ==> {
            let len = bytes[end + 2] * 256 + bytes[end + 3];
            if bytes.len() < end + 6 + len {
                frame_at_start(bytes) is Incomplete
            } else {
                frame_at_start(bytes) == (FrameModel::Complete {
                    source: EndpointModel {
                        host,
                        port: (bytes[end] * 256 + bytes[end + 1]) as u16,
                    },
                    payload: bytes.subrange(end + 6, end + 6 + len),
                    len: end + 6 + len,
                })
            }
        },
{
    law_spelled_host_read(tags(), bytes, 0, host);
}

/// Two digits stand for each byte, the high half first, in `0` to `9` and `a` to
/// `f`.
pub proof fn law_hex(bytes: Seq<u8>, at: int)
    requires
        0 <= at < bytes.len(),
    ensures
        ({
            let value = |digit: u8|
                if 48 <= digit <= 57 {
                    digit - 48
                } else if 97 <= digit <= 102 {
                    digit - 87
                } else {
                    16
                };
            let digits = hex(bytes);
            &&& digits.len() == 2 * bytes.len()
            &&& value(digits[2 * at]) < 16 && value(digits[2 * at + 1]) < 16
            &&& value(digits[2 * at]) * 16 + value(digits[2 * at + 1]) == bytes[at]
        }),
{
    let digits = hex(bytes);
    assert((2 * at) / 2 == at && (2 * at) % 2 == 0);
    assert((2 * at + 1) / 2 == at && (2 * at + 1) % 2 == 1);
    assert(digits[2 * at] == hex_digit(bytes[at] / 16));
    assert(digits[2 * at + 1] == hex_digit(bytes[at] % 16));
}

/// A configuration is accepted where it has a password and a name that a server
/// can have.
pub proof fn law_config_accepted(
    host_text: Seq<char>,
    password: Seq<char>,
    configured: Option<Seq<char>>,
)
    ensures
        config_fault(host_text, password, configured) is None ==> password.len() > 0,
        password.len() > 0 ==> (config_fault(host_text, password, configured) is None
            <==> crate::crypto::server_name_error(
            match configured {
                Some(name) => name,
                None => host_text,
            },
        ) is None),
{
}

/// Datagrams that one side puts into frames are received by the other one after
/// the other, each with its endpoint; one that there is no room for is lost, and
/// those behind it are not.
pub proof fn law_received(
    first: (EndpointModel, Seq<u8>),
    second: (EndpointModel, Seq<u8>),
    after: Seq<u8>,
    capacity: nat,
)
    requires
        first.0.host.wf() && host_fits(first.0.host) && first.1.len() <= 0xffff,
        second.0.host.wf() && host_fits(second.0.host) && second.1.len() <= 0xffff,
    ensures
        ({
            let buffer = frame_bytes(first.0, first.1) + frame_bytes(second.0, second.1) + after;
            let (one, rest) = taken(buffer, capacity);
            let (two, left) = taken(rest, capacity);
            &&& one == (if first.1.len() <= capacity {
                RecvModel::Packet(first.1, first.0)
            } else {
                RecvModel::Fail
            })
            &&& two == (if second.1.len() <= capacity {
                RecvModel::Packet(second.1, second.0)
            } else {
                RecvModel::Fail
            })
            &&& left == after
        }),
{
    let later = frame_bytes(second.0, second.1) + after;
    let buffer = frame_bytes(first.0, first.1) + frame_bytes(second.0, second.1) + after;
    assert(buffer =~= frame_bytes(first.0, first.1) + later);
    law_frame_round_trip(first.0, first.1, later);
    assert(buffer.skip(frame_bytes(first.0, first.1).len() as int) =~= later);
    law_frame_round_trip(second.0, second.1, after);
    assert(later.skip(frame_bytes(second.0, second.1).len() as int) =~= after);
}

/// A password as a server knows it.
pub open spec fn hashed(password: Seq<char>) -> Seq<u8> {
    hex(sha224_digest(utf8(password)))
}

/// A server knows a password by the hexadecimal digits of its SHA-224 digest, two
/// for each byte.
pub proof fn law_hashed(password: Seq<char>, at: int)
    requires
        0 <= at < sha224_digest(utf8(password)).len(),
    ensures
        ({
            let value = |digit: u8|
                if 48 <= digit <= 57 {
                    digit - 48
                } else if 97 <= digit <= 102 {
                    digit - 87
                } else {
                    16
                };
            let digest = sha224_digest(utf8(password));
            &&& hashed(password).len() == 2 * digest.len()
            &&& value(hashed(password)[2 * at]) * 16 + value(hashed(password)[2 * at + 1])
                == digest[at]
        }),
{
    law_hex(sha224_digest(utf8(password)), at);
}

/// Bytes that begin with no tag of a host are no frame, and too few are waited
/// for.
pub proof fn law_no_frame(bytes: Seq<u8>)
    ensures
        bytes.len() == 0 ==> frame_at_start(bytes) is Incomplete,
        bytes.len() > 0 && bytes[0] != 1 && bytes[0] != 3 && bytes[0] != 4 ==> frame_at_start(bytes)
            is Invalid,
        0 < bytes.len() < 5 && bytes[0] == 1 ==> frame_at_start(bytes) is Incomplete,
        0 < bytes.len() < 17 && bytes[0] == 4 ==> frame_at_start(bytes) is Incomplete,
{
}

} // verus!
