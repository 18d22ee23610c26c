//! VLESS: a UUID and a target in front of the stream, an answer header before
//! the peer's bytes, and length-prefixed datagrams.
use crate::address::{
    host_bytes, host_fits, host_len, law_host_spelled, push_host, spells_host, Tags,
};
use crate::crypto::{uuid_bytes, uuid_parse};
use crate::octets::{be16, be16_bytes, lemma_be16_round_trip, push_all, push_be16, read_be16};
use crate::outbound::frame_writer::{closed, closed_message, WriteState};
use crate::outbound::tls_name::{chosen_name, name_view, server_name_fault, tls_server_name};
use crate::text::{decimal, decimal_text, join};
use crate::types::{
    Endpoint, EndpointModel, IoError, IoErrorKind, OutboundError, StreamError, StreamErrorKind,
};
use vstd::prelude::*;

verus! {

/// The command that asks for a stream.
pub const COMMAND_STREAM: u8 = 0x01;

/// The command that asks for datagrams.
pub const COMMAND_DATAGRAM: u8 = 0x02;

/// The tags of an address.
pub open spec fn tags() -> Tags {
    Tags { v4: 0x01, domain: 0x02, v6: 0x03 }
}

fn wire_tags() -> (out: Tags)
    ensures
        out == tags(),
{
    Tags { v4: 0x01, domain: 0x02, v6: 0x03 }
}

/// The request header: the version, the UUID, no add-on, the command and the
/// target.
pub open spec fn request_bytes(uuid: Seq<u8>, command: u8, target: EndpointModel) -> Seq<u8> {
    seq![0u8] + uuid + seq![0u8, command] + be16_bytes(target.port) + host_bytes(
        tags(),
        target.host,
    )
}

/// Builds the request header.
pub fn encode_request(uuid: &[u8; 16], command: u8, target: &Endpoint) -> (header: Result<
    Vec<u8>,
    OutboundError,
>)
    ensures
        header is Ok <==> host_fits(target@.host),
        header matches Ok(bytes) ==> bytes@ == request_bytes(uuid@, command, target@),
        header matches Err(error) ==> error.message@ == "VLESS target domain exceeds 255 bytes"@,
{
    let mut output: Vec<u8> = Vec::with_capacity(64);
    output.push(0x00);
    push_all(&mut output, uuid);
    output.push(0x00);
    output.push(command);
    push_be16(&mut output, target.port);
    if !push_host(&mut output, wire_tags(), &target.host) {
        return Err(OutboundError::new("VLESS target domain exceeds 255 bytes"));
    }
    assert(output@ =~= request_bytes(uuid@, command, target@));
    Ok(output)
}

/// TLS policy of a VLESS server.
#[derive(Clone, Debug, Default, PartialEq, Eq)]
pub struct VlessTlsConfig {
    pub enabled: bool,
    pub server_name: Option<String>,
    pub insecure: bool,
    pub alpn: Vec<String>,
}

/// A configuration that cannot be used.
#[derive(Clone, Debug, PartialEq, Eq)]
pub struct VlessConfigError {
    pub message: String,
}

/// A VLESS server and how to ask it for a stream.
pub struct VlessOutbound {
    pub server: Endpoint,
    pub uuid: [u8; 16],
    /// The name that TLS expects, where TLS is used.
    pub server_name: Option<String>,
    pub tls: VlessTlsConfig,
}

/// Whether a flow is plain: flows that shape the stream, XTLS Vision among
/// them, are not had here.
pub open spec fn plain_flow(flow: Option<Seq<char>>) -> bool {
    flow matches Some(name) ==> name.len() == 0
}

/// Why a configuration is refused; `None` where it is not.
pub open spec fn config_fault(
    host_text: Seq<char>,
    uuid: Seq<char>,
    flow: Option<Seq<char>>,
    tls_enabled: bool,
    configured: Option<Seq<char>>,
) -> Option<Seq<char>> {
    match uuid_bytes(uuid) {
        Err(error) => Some("invalid VLESS UUID: "@ + error),
        Ok(_) => if !plain_flow(flow) {
            Some("unsupported VLESS flow `"@ + flow->0 + "`"@)
        } else if tls_enabled {
            server_name_fault("VLESS"@, chosen_name(configured, host_text))
        } else {
            None
        },
    }
}

impl VlessOutbound {
    /// Checks a configuration; `host_text` is the server's host in text form.
    pub fn new(
        server: Endpoint,
        host_text: &str,
        uuid: &str,
        flow: Option<&str>,
        tls: VlessTlsConfig,
    ) -> (outbound: Result<VlessOutbound, VlessConfigError>)
        ensures
            ({
                let configured = name_view(tls.server_name);
                let wanted = match flow {
                    Some(name) => Some(name@),
                    None => None,
                };
                let fault = config_fault(host_text@, uuid@, wanted, tls.enabled, configured);
                &&& outbound is Err <==> fault is Some
                &&& outbound matches Err(error) ==> Some(error.message@) == fault
                &&& outbound matches Ok(outbound) ==> {
                    &&& outbound.server == server
                    &&& outbound.tls == tls
                    &&& (uuid_bytes(uuid@) matches Ok(bytes) && bytes == outbound.uuid@)
                    &&& name_view(outbound.server_name) == (if tls.enabled {
                        Some(chosen_name(configured, host_text@))
                    } else {
                        None
                    })
                }
            }),
    {
        let uuid = match uuid_parse(uuid) {
            Ok(uuid) => uuid,
            Err(error) => return Err(
                VlessConfigError { message: join("invalid VLESS UUID: ", error.as_str()) },
            ),
        };
        if let Some(value) = flow {
            if !value.is_empty() {
                let head = join("unsupported VLESS flow `", value);
                return Err(VlessConfigError { message: join(head.as_str(), "`") });
            }
        }
        let server_name: Option<String> = if tls.enabled {
            match tls_server_name("VLESS", &tls.server_name, host_text) {
                Ok(name) => Some(name),
                Err(message) => return Err(VlessConfigError { message }),
            }
        } else {
            None
        };
        Ok(VlessOutbound { server, uuid, server_name, tls })
    }

    /// The bytes that ask the server for `target`.
    pub fn connect_with_command(&self, target: &Endpoint, command: u8) -> (request: Result<
        Vec<u8>,
        OutboundError,
    >)
        ensures
            request is Ok <==> host_fits(target@.host),
            request matches Ok(bytes) ==> bytes@ == request_bytes(self.uuid@, command, target@),
            request matches Err(error) ==> error.message@
                == "VLESS target domain exceeds 255 bytes"@,
    {
        encode_request(&self.uuid, command, target)
    }
}

/// How much of the peer's answer header has been read.
pub enum ResponseState {
    /// The version and the length of the add-on.
    Header { bytes: Vec<u8> },
    /// The add-on, which is skipped.
    Addon { remaining: usize },
    /// What follows belongs to the stream.
    Ready,
}

/// What a [`ResponseState`] holds.
pub enum ResponseModel {
    Header(Seq<u8>),
    Addon(nat),
    Ready,
}

/// How reading the answer header can fail.
pub enum ResponseFault {
    ClosedInHeader,
    ClosedInAddon,
    Version(u8),
}

impl ResponseFault {
    pub open spec fn kind(self) -> StreamErrorKind {
        match self {
            ResponseFault::Version(_) => StreamErrorKind::InvalidData,
            _ => StreamErrorKind::UnexpectedEof,
        }
    }

    pub open spec fn message(self) -> Seq<char> {
        match self {
            ResponseFault::ClosedInHeader => "VLESS server closed before response header"@,
            ResponseFault::ClosedInAddon => "VLESS server closed in response addon"@,
            ResponseFault::Version(version) => "VLESS response version mismatch: "@ + decimal(
                version as nat,
            ),
        }
    }
}

impl ResponseModel {
    pub open spec fn wf(self) -> bool {
        match self {
            ResponseModel::Header(bytes) => bytes.len() <= 2,
            ResponseModel::Addon(remaining) => 0 < remaining < 256,
            ResponseModel::Ready => true,
        }
    }

    /// How many bytes belong to the part under way.
    pub open spec fn wanted(self) -> nat {
        match self {
            ResponseModel::Header(bytes) => (2 - bytes.len()) as nat,
            ResponseModel::Addon(remaining) => remaining,
            ResponseModel::Ready => 0,
        }
    }

    /// The state after some bytes of the part under way, and the fault where
    /// there is one.
    pub open spec fn after(self, data: Seq<u8>) -> (ResponseModel, Option<ResponseFault>) {
        match self {
            ResponseModel::Header(bytes) => {
                let whole = bytes + data;
                if data.len() == 0 {
                    (self, Some(ResponseFault::ClosedInHeader))
                } else if whole.len() < 2 {
                    (ResponseModel::Header(whole), None)
                } else if whole[0] != 0 {
                    (ResponseModel::Header(whole), Some(ResponseFault::Version(whole[0])))
                } else if whole[1] == 0 {
                    (ResponseModel::Ready, None)
                } else {
                    (ResponseModel::Addon(whole[1] as nat), None)
                }
            },
            ResponseModel::Addon(remaining) => {
                if data.len() == 0 {
                    (self, Some(ResponseFault::ClosedInAddon))
                } else if data.len() < remaining {
                    (ResponseModel::Addon((remaining - data.len()) as nat), None)
                } else {
                    (ResponseModel::Ready, None)
                }
            },
            ResponseModel::Ready => (self, None),
        }
    }
}

impl View for ResponseState {
    type V = ResponseModel;

    open spec fn view(&self) -> ResponseModel {
        match *self {
            ResponseState::Header { bytes } => ResponseModel::Header(bytes@),
            ResponseState::Addon { remaining } => ResponseModel::Addon(remaining as nat),
            ResponseState::Ready => ResponseModel::Ready,
        }
    }
}

impl ResponseState {
    pub fn new() -> (state: ResponseState)
        ensures
            state@ == ResponseModel::Header(Seq::empty()),
            state@.wf(),
    {
        ResponseState::Header { bytes: Vec::new() }
    }

    /// How many bytes to read before the stream's own; none when it is ready.
    pub fn wanted(&self) -> (count: usize)
        requires
            self@.wf(),
        ensures
            count == self@.wanted(),
    {
        match self {
            ResponseState::Header { bytes } => 2 - bytes.len(),
            ResponseState::Addon { remaining } => *remaining,
            ResponseState::Ready => 0,
        }
    }

    /// The stream gave some bytes of the header; none means that it is closed.
    pub fn poll_read(&mut self, data: &[u8]) -> (done: Result<(), StreamError>)
        requires
            old(self)@.wf(),
            !(*old(self) is Ready),
            data@.len() <= old(self)@.wanted(),
        ensures
            final(self)@.wf(),
            ({
                let (state, fault) = old(self)@.after(data@);
                &&& final(self)@ == state
                &&& match fault {
                    None => done is Ok,
                    Some(fault) => done matches Err(error) && error.says(
                        fault.kind(),
                        fault.message(),
                    ),
                }
            }),
    {
        let mut next: Option<ResponseState> = None;
        match self {
            ResponseState::Header { bytes } => {
                if data.len() == 0 {
                    return Err(
                        StreamError::new(
                            StreamErrorKind::UnexpectedEof,
                            "VLESS server closed before response header",
                        ),
                    );
                }
                push_all(bytes, data);
                if bytes.len() == 2 {
                    if bytes[0] != 0 {
                        let number = decimal_text(bytes[0] as u64);
                        return Err(
                            StreamError {
                                kind: StreamErrorKind::InvalidData,
                                message: join(
                                    "VLESS response version mismatch: ",
                                    number.as_str(),
                                ),
                            },
                        );
                    }
                    if bytes[1] == 0 {
                        next = Some(ResponseState::Ready);
                    } else {
                        next = Some(ResponseState::Addon { remaining: bytes[1] as usize });
                    }
                }
            },
            ResponseState::Addon { remaining } => {
                if data.len() == 0 {
                    return Err(
                        StreamError::new(
                            StreamErrorKind::UnexpectedEof,
                            "VLESS server closed in response addon",
                        ),
                    );
                }
                *remaining = *remaining - data.len();
                if *remaining == 0 {
                    next = Some(ResponseState::Ready);
                }
            },
            ResponseState::Ready => {},
        }
        match next {
            Some(state) => {
                *self = state;
            },
            None => {},
        }
        Ok(())
    }
}

/// The answer header survives partial reads: two pieces bring about what both
/// at once do.
pub proof fn law_response_pieces(state: ResponseModel, first: Seq<u8>, second: Seq<u8>)
    requires
        state.wf(),
        !(state is Ready),
        first.len() > 0,
        second.len() > 0,
        first.len() + second.len() <= state.wanted(),
    ensures
        state.after(first).1 is None,
        state.after(first).0.after(second) == state.after(first + second),
{
    match state {
        ResponseModel::Header(bytes) => {
            assert(bytes + (first + second) =~= bytes + first + second);
        },
        _ => {},
    }
}

/// A datagram on the wire: its length, then its bytes.
pub open spec fn datagram_bytes(payload: Seq<u8>) -> Seq<u8> {
    be16_bytes(payload.len() as u16) + payload
}

/// What to do next to receive a datagram.
pub enum RecvStep {
    /// Read at most so many bytes from the stream.
    Read(usize),
    /// A datagram arrived.
    Packet { payload: Vec<u8>, source: Endpoint },
    /// Receiving failed.
    Fail(IoError),
}

/// Datagrams of one target over one stream. `pending` holds what was read of
/// the frame under way.
pub struct VlessDatagram {
    pub target: Endpoint,
    pub pending: Vec<u8>,
    pub write: WriteState,
}

/// How many bytes the frame that starts with `pending` takes in all, as far as
/// is known.
pub open spec fn frame_need(pending: Seq<u8>) -> nat {
    if pending.len() < 2 {
        2
    } else {
        2 + be16(pending[0], pending[1]) as nat
    }
}

/// What to do next to receive a datagram, over plain values.
pub enum RecvModel {
    Read(int),
    Packet(Seq<u8>, EndpointModel),
    Fail,
}

impl RecvStep {
    pub open spec fn view(&self) -> RecvModel {
        match *self {
            RecvStep::Read(count) => RecvModel::Read(count as int),
            RecvStep::Packet { payload, source } => RecvModel::Packet(payload@, source@),
            RecvStep::Fail(_) => RecvModel::Fail,
        }
    }
}

/// What is received of what was read, with room for `capacity` bytes, and what is
/// held after that.
pub open spec fn taken(pending: Seq<u8>, target: EndpointModel, capacity: nat) -> (
    RecvModel,
    Seq<u8>,
) {
    if pending.len() < frame_need(pending) {
        (RecvModel::Read(frame_need(pending) - pending.len()), pending)
    } else if frame_need(pending) - 2 <= capacity {
        (RecvModel::Packet(pending.skip(2), target), Seq::empty())
    } else {
        (RecvModel::Fail, Seq::empty())
    }
}

impl VlessDatagram {
    /// No more than one frame is held.
    pub open spec fn wf(self) -> bool {
        self.pending@.len() <= frame_need(self.pending@) && self.write.wf()
    }

    pub fn new(target: Endpoint) -> (datagram: VlessDatagram)
        ensures
            datagram.wf(),
            datagram.target == target,
            datagram.pending@ == Seq::<u8>::empty(),
            datagram.write is Idle,
    {
        VlessDatagram { target, pending: Vec::new(), write: WriteState::Idle }
    }

    /// Delivers the datagram that is complete, or says how many bytes the
    /// frame still lacks. A payload of more than `capacity` bytes is dropped
    /// with an error.
    pub fn poll_recv_from(&mut self, capacity: usize) -> (step: RecvStep)
        requires
            old(self).wf(),
        ensures
            final(self).wf(),
            final(self).target == old(self).target,
            final(self).write == old(self).write,
            ({
                let pending = old(self).pending@;
                let need = frame_need(pending);
                if pending.len() < need {
                    &&& step matches RecvStep::Read(count)
                    &&& count == need - pending.len()
                    &&& final(self).pending@ == pending
                } else if need - 2 <= capacity {
                    &&& step matches RecvStep::Packet { payload, source }
                    &&& payload@ == pending.skip(2)
                    &&& source@ == old(self).target@
                    &&& final(self).pending@ == Seq::<u8>::empty()
                } else {
                    &&& step matches RecvStep::Fail(error)
                    &&& error.says(
                        IoErrorKind::InvalidInput,
                        "VLESS UDP payload of "@ + decimal((need - 2) as nat)
                            + " bytes exceeds receive buffer"@,
                    )
                    &&& final(self).pending@ == Seq::<u8>::empty()
                }
            }),
            (step@, final(self).pending@) == taken(
                old(self).pending@,
                old(self).target@,
                capacity as nat,
            ),
    {
        if self.pending.len() < 2 {
            return RecvStep::Read(2 - self.pending.len());
        }
        let length: usize = read_be16(self.pending.as_slice(), 0) as usize;
        if self.pending.len() < 2 + length {
            return RecvStep::Read(2 + length - self.pending.len());
        }
        let payload = crate::octets::copy_range(self.pending.as_slice(), 2, 2 + length);
        assert(payload@ =~= self.pending@.skip(2));
        self.pending = Vec::new();
        if length > capacity {
            let number = decimal_text(length as u64);
            let head = join("VLESS UDP payload of ", number.as_str());
            return RecvStep::Fail(
                IoError {
                    kind: IoErrorKind::InvalidInput,
                    message: join(head.as_str(), " bytes exceeds receive buffer"),
                },
            );
        }
        RecvStep::Packet { payload, source: self.target.duplicate() }
    }

    /// The stream gave some bytes of the frame; none means that it is closed.
    pub fn received(&mut self, data: &[u8]) -> (done: Result<(), IoError>)
        requires
            old(self).wf(),
            old(self).pending@.len() + data@.len() <= frame_need(old(self).pending@),
        ensures
            final(self).wf(),
            final(self).target == old(self).target,
            final(self).write == old(self).write,
            final(self).pending@ == old(self).pending@ + data@,
            done is Err <==> data@.len() == 0,
            done matches Err(error) ==> error.says(
                IoErrorKind::Closed,
                closed_message("read VLESS UDP frame"@),
            ),
    {
        push_all(&mut self.pending, data);
        assert(old(self).pending@.len() >= 2 ==> self.pending@[0] == old(self).pending@[0]
            && self.pending@[1] == old(self).pending@[1]);
        if data.len() == 0 {
            return Err(closed("read VLESS UDP frame"));
        }
        Ok(())
    }

    /// Begins to send a datagram, unless one is already under way. The target
    /// is fixed for the session.
    pub fn poll_send_to(&mut self, payload: &[u8], target: &Endpoint) -> (done: Result<(), IoError>)
        requires
            old(self).wf(),
        ensures
            final(self).wf(),
            final(self).target == old(self).target,
            final(self).pending == old(self).pending,
            !(old(self).write is Idle) ==> done is Ok && final(self).write == old(self).write,
            old(self).write is Idle ==> (if target@ != old(self).target@ {
                &&& done matches Err(error)
                &&& error.says(
                    IoErrorKind::InvalidInput,
                    "VLESS native UDP session cannot change target"@,
                )
                &&& final(self).write is Idle
            } else if payload@.len() > 0xffff {
                &&& done matches Err(error)
                &&& error.says(IoErrorKind::InvalidInput, "VLESS UDP payload exceeds 65535 bytes"@)
                &&& final(self).write is Idle
            } else {
                &&& done is Ok
                &&& final(self).write is Frame
                &&& final(self).write.unwritten() == datagram_bytes(payload@)
                &&& final(self).write.payload() == Some(payload.len())
            }),
    {
        match self.write {
            WriteState::Idle => {},
            _ => return Ok(()),
        }
        if !target.same(&self.target) {
            return Err(
                IoError::new(
                    IoErrorKind::InvalidInput,
                    "VLESS native UDP session cannot change target",
                ),
            );
        }
        if payload.len() > 0xffff {
            return Err(
                IoError::new(IoErrorKind::InvalidInput, "VLESS UDP payload exceeds 65535 bytes"),
            );
        }
        let mut bytes: Vec<u8> = Vec::new();
        push_be16(&mut bytes, payload.len() as u16);
        push_all(&mut bytes, payload);
        assert(bytes@ =~= datagram_bytes(payload@));
        self.write = WriteState::begin(bytes, payload.len());
        Ok(())
    }

    /// The stream took `count` bytes of the frame under way; none means that it
    /// is closed.
    pub fn wrote(&mut self, count: usize) -> (done: Result<(), IoError>)
        requires
            old(self).wf(),
            old(self).write is Frame,
            count <= old(self).write.unwritten().len(),
        ensures
            final(self).wf(),
            final(self).target == old(self).target,
            final(self).pending == old(self).pending,
            final(self).write.payload() == old(self).write.payload(),
            final(self).write.unwritten() == old(self).write.unwritten().skip(count as int),
            (final(self).write is Flush) == (count == old(self).write.unwritten().len()),
            (final(self).write is Frame) == (count < old(self).write.unwritten().len()),
            done is Err <==> count == 0,
            done matches Err(error) ==> error.says(IoErrorKind::Closed, closed_message("write VLESS UDP frame"@)),
    {
        let error = closed("write VLESS UDP frame");
        self.write.wrote(count, error.message.as_str())
    }
}

/// A datagram that was sent arrives whole: once its frame has been read, in
/// whatever pieces, the frame is complete and carries the payload.
pub proof fn law_datagram_round_trip(payload: Seq<u8>)
    requires
        payload.len() <= 0xffff,
    ensures
        datagram_bytes(payload).len() == frame_need(datagram_bytes(payload)),
        datagram_bytes(payload).skip(2) == payload,
        forall|taken: int|
            0 <= taken < datagram_bytes(payload).len() ==> taken < frame_need(
                #[trigger] datagram_bytes(payload).take(taken),
            ) <= datagram_bytes(payload).len(),
{
    let frame = datagram_bytes(payload);
    lemma_be16_round_trip(payload.len() as u16);
    assert(frame[0] == be16_bytes(payload.len() as u16)[0]);
    assert(frame[1] == be16_bytes(payload.len() as u16)[1]);
    assert(frame.skip(2) =~= payload);
}

/// What a server reads of a request: version zero, the UUID, no add-on, the
/// command, which is one for a stream and two for datagrams, the port, and the
/// target with the tags one, two and three.
pub proof fn law_request_layout(uuid: Seq<u8>, command: u8, target: EndpointModel)
    requires
        uuid.len() == 16,
        target.host.wf(),
        host_fits(target.host),
    ensures
        ({
            let bytes = request_bytes(uuid, command, target);
            &&& bytes.len() == 21 + host_len(target.host)
            &&& bytes[0] == 0
            &&& bytes.subrange(1, 17) == uuid
            &&& bytes[17] == 0
            &&& bytes[18] == command
            &&& bytes[19] * 256 + bytes[20] == target.port
            &&& spells_host(bytes, 21, 1, 2, 3, target.host)
        }),
        COMMAND_STREAM == 1,
        COMMAND_DATAGRAM == 2,
{
    let before = seq![0u8] + uuid + seq![0u8, command] + be16_bytes(target.port);
    let none = Seq::<u8>::empty();
    let bytes = request_bytes(uuid, command, target);
    assert(bytes =~= before + host_bytes(tags(), target.host) + none);
    law_host_spelled(tags(), target.host, before, none);
    assert(bytes.subrange(1, 17) =~= uuid);
}

/// A server answers with version zero and the length of an add-on, and the
/// add-on; after that everything is payload. Another version is refused, and so
/// is a stream that ends before.
pub proof fn law_response(length: u8, version: u8, addon: Seq<u8>)
    requires
        addon.len() == length,
        length > 0,
    ensures
        ({
            let start = ResponseModel::Header(Seq::empty());
            &&& start.wanted() == 2
            &&& start.after(seq![0u8, 0u8]) == (ResponseModel::Ready, None::<ResponseFault>)
            &&& start.after(seq![0u8, length]).1 is None
            &&& start.after(seq![0u8, length]).0.wanted() == length
            &&& start.after(seq![0u8, length]).0.after(addon) == (
                ResponseModel::Ready,
                None::<ResponseFault>,
            )
            &&& version != 0 ==> start.after(seq![version, length]).1 == Some(
                ResponseFault::Version(version),
            )
            &&& start.after(Seq::empty()).1 == Some(ResponseFault::ClosedInHeader)
            &&& start.after(seq![0u8, length]).0.after(Seq::empty()).1 == Some(
                ResponseFault::ClosedInAddon,
            )
            &&& ResponseModel::Ready.wanted() == 0
        }),
{
    let none = Seq::<u8>::empty();
    assert(none + seq![0u8, 0u8] =~= seq![0u8, 0u8]);
    assert(none + seq![0u8, length] =~= seq![0u8, length]);
    assert(none + seq![version, length] =~= seq![version, length]);
}

/// A flow that shapes the stream is refused whatever it is called; no flow and
/// an empty one are not.
pub proof fn law_flow_refused(flow: Seq<char>)
    ensures
        plain_flow(None),
        plain_flow(Some(flow)) <==> flow.len() == 0,
{
}

/// A configuration is accepted where its identifier can be read, its flow is
/// plain, and, with TLS, its name is one that a server can have.
pub proof fn law_config_accepted(
    host_text: Seq<char>,
    uuid: Seq<char>,
    flow: Option<Seq<char>>,
    tls_enabled: bool,
    configured: Option<Seq<char>>,
)
    ensures
        config_fault(host_text, uuid, flow, tls_enabled, configured) is None <==> {
            &&& uuid_bytes(uuid) is Ok
            &&& flow is None || flow->0.len() == 0
            &&& tls_enabled ==> crate::crypto::server_name_error(
                match configured {
                    Some(name) => name,
                    None => host_text,
                },
            ) is None
        },
{
}

/// A datagram takes two bytes for its length, and the reader waits for all of
/// it.
pub proof fn law_datagram_layout(payload: Seq<u8>, pending: Seq<u8>)
    requires
        payload.len() <= 0xffff,
    ensures
        datagram_bytes(payload).len() == payload.len() + 2,
        datagram_bytes(payload)[0] * 256 + datagram_bytes(payload)[1] == payload.len(),
        datagram_bytes(payload).skip(2) == payload,
        pending.len() < 2 ==> frame_need(pending) == 2,
        pending.len() >= 2 ==> frame_need(pending) == 2 + pending[0] * 256 + pending[1],
{
    assert(datagram_bytes(payload).skip(2) =~= payload);
}

/// A datagram is received once all of it was read, as one of the session's
/// target, and nothing is held after it; until then what it lacks is read. One
/// that there is no room for is lost.
pub proof fn law_received(payload: Seq<u8>, target: EndpointModel, capacity: nat, have: int)
    requires
        payload.len() <= 0xffff,
        0 <= have < payload.len() + 2,
    ensures
        ({
            let frame = seq![(payload.len() / 256) as u8, (payload.len() % 256) as u8] + payload;
            let part = taken(frame.take(have), target, capacity);
            &&& taken(frame, target, capacity).1.len() == 0
            &&& payload.len() <= capacity ==> taken(frame, target, capacity).0
                == RecvModel::Packet(payload, target)
            &&& payload.len() > capacity ==> taken(frame, target, capacity).0 is Fail
            &&& part.1 == frame.take(have)
            &&& part.0 == RecvModel::Read(
                if have < 2 {
                    2 - have
                } else {
                    frame.len() - have
                },
            )
        }),
{
    let frame = seq![(payload.len() / 256) as u8, (payload.len() % 256) as u8] + payload;
    assert(frame.skip(2) =~= payload);
    if have >= 2 {
        assert(frame.take(have)[0] == frame[0] && frame.take(have)[1] == frame[1]);
    }
}

} // verus!
