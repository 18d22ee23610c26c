//! Mux.Cool version 1: frames, sessions that carry many streams over one
//! connection, and a pool of such sessions.
use crate::address::{
    host_bytes, host_fits, host_len, law_host_spelled, push_host, spells_host, Tags,
};
use crate::octets::{
    array16, array4, be16, be16_bytes, be64_bytes, copy_range, lemma_be16_round_trip, push_all,
    push_be16, push_be64, read_be16,
};
use crate::text::{from_utf8, join, lemma_utf8_round_trip, text_from_utf8, utf8, utf8_error};
use crate::transport::config::TransportError;
use crate::types::{
    Endpoint, EndpointModel, Host, HostModel, IoError, IoErrorKind, IpAddress, IpModel,
    StreamError, StreamErrorKind,
};
use std::collections::HashMap;
use vstd::prelude::*;
use vstd::slice::slice_subrange;

verus! {

broadcast use vstd::std_specs::hash::group_hash_axioms;

/// A stream is opened.
pub const NEW: u8 = 1;

/// A stream goes on.
pub const KEEP: u8 = 2;

/// A stream ends.
pub const END: u8 = 3;

/// The option for a frame that carries data.
pub const DATA: u8 = 1;

/// How many bytes of a stream one frame carries.
pub const MAX_PAYLOAD: usize = 60 * 1024;

/// Limits of a pool.
#[derive(Clone, Debug, PartialEq, Eq)]
pub struct MuxCoolConfig {
    pub max_streams: usize,
    pub max_connections: usize,
    pub buffer_size: usize,
}

impl Default for MuxCoolConfig {
    fn default() -> (config: MuxCoolConfig)
        ensures
            config.max_streams == 32,
            config.max_connections == 4,
            config.buffer_size == 64 * 1024,
    {
        MuxCoolConfig { max_streams: 32, max_connections: 4, buffer_size: 64 * 1024 }
    }
}

/// The tags of an address.
pub open spec fn tags() -> Tags {
    Tags { v4: 1, domain: 2, v6: 3 }
}

/// Appends a host; a name longer than 255 bytes is refused.
fn encode_address(output: &mut Vec<u8>, host: &Host) -> (done: Result<(), TransportError>)
    ensures
        done is Ok <==> host_fits(host@),
        done is Ok ==> final(output)@ == old(output)@ + host_bytes(tags(), host@),
        done matches Err(error) ==> error.message@ == "Mux.Cool domain exceeds 255 bytes"@,
{
    if push_host(output, Tags { v4: 1, domain: 2, v6: 3 }, host) {
        Ok(())
    } else {
        Err(TransportError::new("Mux.Cool domain exceeds 255 bytes"))
    }
}

/// The metadata of a frame that names a target.
pub open spec fn metadata_bytes(
    id: u16,
    status: u8,
    options: u8,
    network: u8,
    target: EndpointModel,
) -> Seq<u8> {
    be16_bytes(id) + seq![status, options, network] + be16_bytes(target.port) + host_bytes(
        tags(),
        target.host,
    )
}

/// Metadata behind its length, and the data behind theirs where there are any.
pub open spec fn wrapped(metadata: Seq<u8>, payload: Seq<u8>) -> Seq<u8> {
    be16_bytes(metadata.len() as u16) + metadata + (if payload.len() == 0 {
        Seq::empty()
    } else {
        be16_bytes(payload.len() as u16) + payload
    })
}

/// Writes the metadata of a frame that names a target.
fn target_metadata(id: u16, status: u8, options: u8, network: u8, target: &Endpoint) -> (metadata:
    Result<Vec<u8>, TransportError>)
    ensures
        metadata is Ok <==> host_fits(target@.host),
        metadata matches Ok(bytes) ==> bytes@ == metadata_bytes(
            id,
            status,
            options,
            network,
            target@,
        ) && bytes@.len() < 300,
        metadata matches Err(error) ==> error.message@ == "Mux.Cool domain exceeds 255 bytes"@,
{
    let mut metadata: Vec<u8> = Vec::with_capacity(40);
    push_be16(&mut metadata, id);
    metadata.push(status);
    metadata.push(options);
    metadata.push(network);
    push_be16(&mut metadata, target.port);
    match encode_address(&mut metadata, &target.host) {
        Ok(()) => {
            assert(metadata@ =~= metadata_bytes(id, status, options, network, target@));
            Ok(metadata)
        },
        Err(error) => Err(error),
    }
}

/// Puts metadata and data into a frame.
fn wrap_metadata(metadata: Vec<u8>, payload: &[u8]) -> (frame: Result<Vec<u8>, TransportError>)
    requires
        payload@.len() <= 0xffff,
    ensures
        frame is Ok <==> metadata@.len() <= 0xffff,
        frame matches Ok(bytes) ==> bytes@ == wrapped(metadata@, payload@),
        frame matches Err(error) ==> error.message@ == "Mux.Cool metadata exceeds 65535 bytes"@,
{
    if metadata.len() > 0xffff {
        return Err(TransportError::new("Mux.Cool metadata exceeds 65535 bytes"));
    }
    let mut frame: Vec<u8> = Vec::new();
    push_be16(&mut frame, metadata.len() as u16);
    push_all(&mut frame, metadata.as_slice());
    if payload.len() != 0 {
        push_be16(&mut frame, payload.len() as u16);
        push_all(&mut frame, payload);
    }
    assert(frame@ =~= wrapped(metadata@, payload@));
    Ok(frame)
}

/// The frame that opens a stream.
pub fn new_frame(id: u16, target: &Endpoint) -> (frame: Result<Vec<u8>, TransportError>)
    ensures
        frame is Ok <==> host_fits(target@.host),
        frame matches Ok(bytes) ==> bytes@ == wrapped(
            metadata_bytes(id, NEW, 0, 1, target@),
            Seq::empty(),
        ),
        frame matches Err(error) ==> error.message@ == "Mux.Cool domain exceeds 255 bytes"@,
{
    match target_metadata(id, NEW, 0, 1, target) {
        Ok(metadata) => {
            let empty: [u8; 0] = [];
            assert(empty@ =~= Seq::<u8>::empty());
            wrap_metadata(metadata, &empty)
        },
        Err(error) => Err(error),
    }
}

/// The frame that opens an association for datagrams.
pub fn new_datagram_frame(id: u16, target: &Endpoint, global_id: u64) -> (frame: Result<
    Vec<u8>,
    TransportError,
>)
    ensures
        frame is Ok <==> host_fits(target@.host),
        frame matches Ok(bytes) ==> bytes@ == wrapped(
            metadata_bytes(id, NEW, 0, 2, target@) + be64_bytes(global_id),
            Seq::empty(),
        ),
        frame matches Err(error) ==> error.message@ == "Mux.Cool domain exceeds 255 bytes"@,
{
    match target_metadata(id, NEW, 0, 2, target) {
        Ok(mut metadata) => {
            push_be64(&mut metadata, global_id);
            let empty: [u8; 0] = [];
            assert(empty@ =~= Seq::<u8>::empty());
            wrap_metadata(metadata, &empty)
        },
        Err(error) => Err(error),
    }
}

/// The frame that carries one datagram. A datagram without bytes is written
/// without their length.
pub fn datagram_frame(id: u16, target: &Endpoint, payload: &[u8]) -> (frame: Result<
    Vec<u8>,
    TransportError,
>)
    ensures
        frame is Ok <==> payload@.len() <= 0xffff && host_fits(target@.host),
        frame matches Ok(bytes) ==> bytes@ == wrapped(
            metadata_bytes(id, KEEP, DATA, 2, target@),
            payload@,
        ),
        frame matches Err(error) ==> error.message@ == (if payload@.len() > 0xffff {
            "Mux.Cool UDP packet exceeds 65535 bytes"@
        } else {
            "Mux.Cool domain exceeds 255 bytes"@
        }),
{
    if payload.len() > 0xffff {
        return Err(TransportError::new("Mux.Cool UDP packet exceeds 65535 bytes"));
    }
    match target_metadata(id, KEEP, DATA, 2, target) {
        Ok(metadata) => wrap_metadata(metadata, payload),
        Err(error) => Err(error),
    }
}

/// A frame that names no target.
pub open spec fn simple_bytes(id: u16, status: u8, options: u8) -> Seq<u8> {
    be16_bytes(4) + be16_bytes(id) + seq![status, options]
}

fn simple_frame_with_options(id: u16, status: u8, options: u8) -> (frame: Vec<u8>)
    ensures
        frame@ == simple_bytes(id, status, options),
{
    let mut frame: Vec<u8> = Vec::with_capacity(6);
    push_be16(&mut frame, 4);
    push_be16(&mut frame, id);
    frame.push(status);
    frame.push(options);
    assert(frame@ =~= simple_bytes(id, status, options));
    frame
}

/// A frame without data.
pub fn simple_frame(id: u16, status: u8) -> (frame: Vec<u8>)
    ensures
        frame@ == simple_bytes(id, status, 0),
{
    simple_frame_with_options(id, status, 0)
}

/// A frame that carries bytes of a stream.
pub open spec fn data_bytes(id: u16, payload: Seq<u8>) -> Seq<u8> {
    simple_bytes(id, KEEP, DATA) + be16_bytes((payload.len() % 0x1_0000) as u16) + payload
}

/// The frame that carries bytes of a stream. Of the length of more than 65535
/// bytes only the low sixteen bits are written.
pub fn data_frame(id: u16, payload: &[u8]) -> (frame: Vec<u8>)
    ensures
        frame@ == data_bytes(id, payload@),
{
    let mut frame = simple_frame_with_options(id, KEEP, DATA);
    push_be16(&mut frame, (payload.len() % 0x1_0000) as u16);
    push_all(&mut frame, payload);
    assert(frame@ =~= data_bytes(id, payload@));
    frame
}

/// A failed read, in text.
pub struct Fault {
    pub kind: StreamErrorKind,
    pub message: Seq<char>,
}

/// Whether the name in an address lacks even its length byte.
pub open spec fn name_cut_short(bytes: Seq<u8>) -> bool {
    bytes.len() == 3 && bytes[2] == 2
}

/// The endpoint that some metadata names: the port, then the host.
pub open spec fn endpoint_of(bytes: Seq<u8>) -> Result<EndpointModel, Fault> {
    if bytes.len() < 3 {
        Err(Fault { kind: StreamErrorKind::UnexpectedEof, message: "unexpected end of file"@ })
    } else {
        let port = be16(bytes[0], bytes[1]);
        if bytes[2] == 1 && bytes.len() >= 7 {
            Ok(EndpointModel { host: HostModel::Ip(IpModel::V4(bytes.subrange(3, 7))), port })
        } else if bytes[2] == 2 && bytes.len() >= 4 + bytes[3] {
            let name = bytes.subrange(4, 4 + bytes[3]);
            match from_utf8(name) {
                Some(name) => Ok(EndpointModel { host: HostModel::Domain(name), port }),
                None => Err(
                    Fault { kind: StreamErrorKind::InvalidData, message: utf8_error(name) },
                ),
            }
        } else if bytes[2] == 3 && bytes.len() >= 19 {
            Ok(EndpointModel { host: HostModel::Ip(IpModel::V6(bytes.subrange(3, 19))), port })
        } else {
            Err(
                Fault {
                    kind: StreamErrorKind::InvalidData,
                    message: "invalid Mux.Cool UDP address"@,
                },
            )
        }
    }
}

/// Reads the endpoint that some metadata names. The length byte of a name must
/// be there.
pub fn decode_endpoint(bytes: &[u8]) -> (endpoint: Result<Endpoint, StreamError>)
    requires
        !name_cut_short(bytes@),
    ensures
        match endpoint_of(bytes@) {
            Ok(model) => endpoint matches Ok(endpoint) && endpoint@ == model,
            Err(fault) => endpoint matches Err(error) && error.says(fault.kind, fault.message),
        },
{
    if bytes.len() < 3 {
        return Err(StreamError::new(StreamErrorKind::UnexpectedEof, "unexpected end of file"));
    }
    let port = read_be16(bytes, 0);
    let kind = bytes[2];
    let host: Host = if kind == 1 && bytes.len() >= 7 {
        Host::Ip(IpAddress::V4(array4(bytes, 3)))
    } else if kind == 2 && bytes.len() >= 4 + bytes[3] as usize {
        let length: usize = bytes[3] as usize;
        match text_from_utf8(slice_subrange(bytes, 4, 4 + length)) {
            Ok(name) => Host::Domain(name),
            Err(message) => return Err(StreamError { kind: StreamErrorKind::InvalidData, message }),
        }
    } else if kind == 3 && bytes.len() >= 19 {
        Host::Ip(IpAddress::V6(array16(bytes, 3)))
    } else {
        return Err(
            StreamError::new(StreamErrorKind::InvalidData, "invalid Mux.Cool UDP address"),
        );
    };
    Ok(Endpoint::new(host, port))
}

/// A frame that arrived.
pub struct Frame {
    pub id: u16,
    pub status: u8,
    pub payload: Vec<u8>,
    pub target: Option<Endpoint>,
}

/// What a [`Frame`] holds.
pub struct FrameModel {
    pub id: u16,
    pub status: u8,
    pub payload: Seq<u8>,
    pub target: Option<EndpointModel>,
}

impl View for Frame {
    type V = FrameModel;

    open spec fn view(&self) -> FrameModel {
        FrameModel {
            id: self.id,
            status: self.status,
            payload: self.payload@,
            target: match self.target {
                Some(target) => Some(target@),
                None => None,
            },
        }
    }
}

/// What stands at the start of the bytes of a connection.
pub enum FrameScanModel {
    /// More bytes are needed.
    Short,
    /// The bytes are no frame.
    Bad(Fault),
    /// A frame and its length.
    Found(FrameModel, int),
}

/// The target that metadata names, where they name one.
pub open spec fn metadata_target(metadata: Seq<u8>) -> Result<Option<EndpointModel>, Fault> {
    if metadata.len() > 7 && metadata[4] == 2 {
        match endpoint_of(metadata.skip(5)) {
            Ok(endpoint) => Ok(Some(endpoint)),
            Err(fault) => Err(fault),
        }
    } else {
        Ok(None)
    }
}

/// The metadata of the frame at the start of `bytes`, where they are complete.
pub open spec fn metadata_of(bytes: Seq<u8>) -> Option<Seq<u8>> {
    if bytes.len() >= 2 && bytes.len() >= 2 + be16(bytes[0], bytes[1]) {
        Some(bytes.subrange(2, 2 + be16(bytes[0], bytes[1])))
    } else {
        None
    }
}

/// Reads the frame at the start of `bytes`.
pub open spec fn frame_at_start(bytes: Seq<u8>) -> FrameScanModel {
    if bytes.len() < 2 {
        FrameScanModel::Short
    } else {
        let length = be16(bytes[0], bytes[1]);
        if !(4 <= length <= 1024) {
            FrameScanModel::Bad(
                Fault {
                    kind: StreamErrorKind::InvalidData,
                    message: "invalid Mux.Cool metadata length"@,
                },
            )
        } else if bytes.len() < 2 + length {
            FrameScanModel::Short
        } else {
            let metadata = bytes.subrange(2, 2 + length);
            let end = 2 + length;
            match metadata_target(metadata) {
                Err(fault) => FrameScanModel::Bad(fault),
                Ok(target) => {
                    let id = be16(metadata[0], metadata[1]);
                    if metadata[3] & DATA == 0 {
                        FrameScanModel::Found(
                            FrameModel {
                                id,
                                status: metadata[2],
                                payload: Seq::empty(),
                                target,
                            },
                            end,
                        )
                    } else if bytes.len() < end + 2 || bytes.len() < end + 2 + be16(
                        bytes[end],
                        bytes[end + 1],
                    ) {
                        FrameScanModel::Short
                    } else {
                        let stop = end + 2 + be16(bytes[end], bytes[end + 1]);
                        FrameScanModel::Found(
                            FrameModel {
                                id,
                                status: metadata[2],
                                payload: bytes.subrange(end + 2, stop),
                                target,
                            },
                            stop,
                        )
                    }
                },
            }
        }
    }
}

/// What [`read_frame`] found.
pub enum FrameScan {
    Short,
    Bad(StreamError),
    Found(Frame, usize),
}

/// Whether the metadata at the start of `bytes` end inside the name of their
/// target, before its length.
pub open spec fn target_cut_short(bytes: Seq<u8>) -> bool {
    metadata_of(bytes) matches Some(metadata) && metadata.len() == 8 && metadata[4] == 2
        && metadata[7] == 2
}

/// Tests for metadata that end before the length of a name.
pub fn ends_before_name(bytes: &[u8]) -> (yes: bool)
    ensures
        yes == target_cut_short(bytes@),
{
    if bytes.len() < 10 {
        return false;
    }
    let length = read_be16(bytes, 0);
    length == 8 && bytes[6] == 2 && bytes[9] == 2
}

/// Reads the frame at the start of `bytes`; the length byte of a name must be
/// there.
pub fn read_frame(bytes: &[u8]) -> (scan: FrameScan)
    requires
        !target_cut_short(bytes@),
    ensures
        match frame_at_start(bytes@) {
            FrameScanModel::Short => scan is Short,
            FrameScanModel::Bad(fault) => scan matches FrameScan::Bad(error) && error.says(
                fault.kind,
                fault.message,
            ),
            FrameScanModel::Found(model, len) => scan matches FrameScan::Found(frame, used)
                && frame@ == model && used == len && used <= bytes@.len(),
        },
{
    if bytes.len() < 2 {
        return FrameScan::Short;
    }
    let length: usize = read_be16(bytes, 0) as usize;
    if !(4 <= length && length <= 1024) {
        return FrameScan::Bad(
            StreamError::new(StreamErrorKind::InvalidData, "invalid Mux.Cool metadata length"),
        );
    }
    if bytes.len() < 2 + length {
        return FrameScan::Short;
    }
    let end: usize = 2 + length;
    let metadata = slice_subrange(bytes, 2, end);
    let id = read_be16(metadata, 0);
    let status = metadata[2];
    let target: Option<Endpoint> = if metadata.len() > 7 && metadata[4] == 2 {
        assert(metadata@.subrange(5, metadata@.len() as int) =~= metadata@.skip(5));
        assert(metadata_of(bytes@) == Some(metadata@));
        match decode_endpoint(slice_subrange(metadata, 5, metadata.len())) {
            Ok(endpoint) => Some(endpoint),
            Err(error) => return FrameScan::Bad(error),
        }
    } else {
        None
    };
    if metadata[3] & DATA == 0 {
        let payload: Vec<u8> = Vec::new();
        assert(payload@ =~= Seq::<u8>::empty());
        return FrameScan::Found(Frame { id, status, payload, target }, end);
    }
    if bytes.len() - end < 2 {
        return FrameScan::Short;
    }
    let size: usize = read_be16(bytes, end) as usize;
    if bytes.len() - end - 2 < size {
        return FrameScan::Short;
    }
    let payload = copy_range(bytes, end + 2, end + 2 + size);
    FrameScan::Found(Frame { id, status, payload, target }, end + 2 + size)
}

/// A frame with bytes of a stream is read back.
pub proof fn law_data_round_trip(id: u16, payload: Seq<u8>, after: Seq<u8>)
    requires
        payload.len() <= 0xffff,
    ensures
        !target_cut_short(data_bytes(id, payload) + after),
        frame_at_start(data_bytes(id, payload) + after) == FrameScanModel::Found(
            FrameModel { id, status: KEEP, payload, target: None },
            data_bytes(id, payload).len() as int,
        ),
{
    let bytes = data_bytes(id, payload) + after;
    let size = payload.len() as u16;
    lemma_be16_round_trip(4);
    lemma_be16_round_trip(id);
    lemma_be16_round_trip(size);
    assert(bytes[0] == be16_bytes(4)[0] && bytes[1] == be16_bytes(4)[1]);
    assert(bytes[2] == be16_bytes(id)[0] && bytes[3] == be16_bytes(id)[1]);
    assert(bytes[6] == be16_bytes(size)[0] && bytes[7] == be16_bytes(size)[1]);
    assert(bytes.subrange(8, 8 + payload.len() as int) =~= payload);
    assert(1u8 & 1u8 == 1u8) by (bit_vector);
}

/// A frame without data is read back.
pub proof fn law_simple_round_trip(id: u16, status: u8, after: Seq<u8>)
    ensures
        !target_cut_short(simple_bytes(id, status, 0) + after),
        frame_at_start(simple_bytes(id, status, 0) + after) == FrameScanModel::Found(
            FrameModel { id, status, payload: Seq::empty(), target: None },
            6,
        ),
{
    let bytes = simple_bytes(id, status, 0) + after;
    lemma_be16_round_trip(4);
    lemma_be16_round_trip(id);
    assert(bytes[0] == be16_bytes(4)[0] && bytes[1] == be16_bytes(4)[1]);
    assert(bytes[2] == be16_bytes(id)[0] && bytes[3] == be16_bytes(id)[1]);
    assert(0u8 & 1u8 == 0u8) by (bit_vector);
}

/// A host behind its port is read back, whatever follows it.
proof fn lemma_endpoint_round_trip(target: EndpointModel, after: Seq<u8>)
    requires
        target.host.wf(),
        host_fits(target.host),
    ensures
        endpoint_of(be16_bytes(target.port) + host_bytes(tags(), target.host) + after) == Ok::<
            EndpointModel,
            Fault,
        >(target),
        !name_cut_short(be16_bytes(target.port) + host_bytes(tags(), target.host) + after),
{
    let bytes = be16_bytes(target.port) + host_bytes(tags(), target.host) + after;
    lemma_be16_round_trip(target.port);
    assert(bytes[0] == be16_bytes(target.port)[0] && bytes[1] == be16_bytes(target.port)[1]);
    match target.host {
        HostModel::Ip(IpModel::V4(octets)) => {
            assert(bytes.subrange(3, 7) =~= octets);
        },
        HostModel::Ip(IpModel::V6(octets)) => {
            assert(bytes.subrange(3, 19) =~= octets);
        },
        HostModel::Domain(name) => {
            assert(bytes[3] == utf8(name).len());
            assert(bytes.subrange(4, 4 + utf8(name).len() as int) =~= utf8(name));
            lemma_utf8_round_trip(name);
        },
    }
}

/// A frame with a datagram is read back, with its target. (One without bytes
/// is not: its length is missing.)
pub proof fn law_datagram_round_trip(id: u16, target: EndpointModel, payload: Seq<u8>, after: Seq<u8>)
    requires
        target.host.wf(),
        host_fits(target.host),
        0 < payload.len() <= 0xffff,
    ensures
        ({
            let wire = wrapped(metadata_bytes(id, KEEP, DATA, 2, target), payload);
            &&& !target_cut_short(wire + after)
            &&& frame_at_start(wire + after) == FrameScanModel::Found(
                FrameModel { id, status: KEEP, payload, target: Some(target) },
                wire.len() as int,
            )
        }),
{
    let metadata = metadata_bytes(id, KEEP, DATA, 2, target);
    let wire = wrapped(metadata, payload);
    let bytes = wire + after;
    let length = metadata.len() as u16;
    let size = payload.len() as u16;
    let end = 2 + length;
    lemma_be16_round_trip(length);
    lemma_be16_round_trip(id);
    lemma_be16_round_trip(size);
    assert(bytes[0] == be16_bytes(length)[0] && bytes[1] == be16_bytes(length)[1]);
    assert(bytes.subrange(2, end as int) =~= metadata);
    assert(metadata[0] == be16_bytes(id)[0] && metadata[1] == be16_bytes(id)[1]);
    assert(metadata.skip(5) =~= be16_bytes(target.port) + host_bytes(tags(), target.host)
        + Seq::empty());
    lemma_endpoint_round_trip(target, Seq::empty());
    assert(metadata.len() == 8 && metadata[7] == 2 ==> name_cut_short(metadata.skip(5)));
    assert(bytes[end as int] == be16_bytes(size)[0] && bytes[end + 1] == be16_bytes(size)[1]);
    assert(bytes.subrange(end + 2, end + 2 + payload.len()) =~= payload);
    assert(1u8 & 1u8 == 1u8) by (bit_vector);
}

/// What travels under one number of a session.
#[derive(Clone, Copy, Debug, PartialEq, Eq, Structural)]
pub enum Substream {
    Stream,
    Datagram,
}

/// The substreams of one connection.
pub struct MuxSession {
    pub streams: HashMap<u16, Substream>,
    pub max_streams: usize,
}

/// Where the bytes of a frame go.
pub enum Delivery {
    /// To no one.
    Nothing,
    /// To the reader of a stream.
    Stream(Vec<u8>),
    /// To the reader of datagrams, with the sender.
    Datagram(Vec<u8>, Endpoint),
}

/// The same over plain values.
pub enum DeliveryModel {
    Nothing,
    Stream(Seq<u8>),
    Datagram(Seq<u8>, EndpointModel),
}

impl Delivery {
    pub open spec fn view(&self) -> DeliveryModel {
        match *self {
            Delivery::Nothing => DeliveryModel::Nothing,
            Delivery::Stream(bytes) => DeliveryModel::Stream(bytes@),
            Delivery::Datagram(bytes, source) => DeliveryModel::Datagram(bytes@, source@),
        }
    }
}

/// Where the bytes of a frame go.
pub open spec fn delivery_of(streams: Map<u16, Substream>, frame: FrameModel) -> DeliveryModel {
    if !streams.dom().contains(frame.id) {
        DeliveryModel::Nothing
    } else {
        match streams[frame.id] {
            Substream::Stream => if frame.payload.len() == 0 {
                DeliveryModel::Nothing
            } else {
                DeliveryModel::Stream(frame.payload)
            },
            Substream::Datagram => match frame.target {
                Some(source) => DeliveryModel::Datagram(frame.payload, source),
                None => DeliveryModel::Nothing,
            },
        }
    }
}

/// What a frame's end asks for, and the substreams after it.
pub open spec fn closed_by(
    streams: Map<u16, Substream>,
    id: u16,
    status: u8,
    failed: bool,
) -> (Closing, Map<u16, Substream>) {
    if failed || status == END {
        (
            Closing {
                shutdown: streams.dom().contains(id) && streams[id] is Stream,
                released: streams.dom().contains(id),
            },
            streams.remove(id),
        )
    } else {
        (Closing { shutdown: false, released: false }, streams)
    }
}

/// What the end of a substream asks for.
#[derive(Clone, Copy, Debug, PartialEq, Eq, Structural)]
pub struct Closing {
    /// The reader of a stream is told that it ended.
    pub shutdown: bool,
    /// The session carries one substream less.
    pub released: bool,
}

impl MuxSession {
    /// The limit is kept.
    pub open spec fn wf(self) -> bool {
        self.streams@.dom().finite() && self.streams@.len() <= self.max_streams
    }

    pub fn new(max_streams: usize) -> (session: MuxSession)
        ensures
            session.wf(),
            session.max_streams == max_streams,
            session.streams@ == Map::<u16, Substream>::empty(),
    {
        MuxSession { streams: HashMap::new(), max_streams }
    }

    /// Whether another substream may be opened.
    pub open spec fn full(self) -> bool {
        self.streams@.len() >= self.max_streams
    }

    /// The frame to write for a new stream, unless the session is full or the
    /// target cannot be named.
    pub fn open(&self, id: u16, target: &Endpoint) -> (frame: Result<Vec<u8>, TransportError>)
        ensures
            frame is Ok <==> !self.full() && host_fits(target@.host),
            frame matches Ok(bytes) ==> bytes@ == wrapped(
                metadata_bytes(id, NEW, 0, 1, target@),
                Seq::empty(),
            ),
            frame matches Err(error) ==> error.message@ == (if self.full() {
                "Mux.Cool session stream limit reached"@
            } else {
                "Mux.Cool domain exceeds 255 bytes"@
            }),
    {
        if self.streams.len() >= self.max_streams {
            return Err(TransportError::new("Mux.Cool session stream limit reached"));
        }
        new_frame(id, target)
    }

    /// The frame to write for a new association, unless the session is full or
    /// the target cannot be named.
    pub fn open_datagram(&self, id: u16, target: &Endpoint, global_id: u64) -> (frame: Result<
        Vec<u8>,
        TransportError,
    >)
        ensures
            frame is Ok <==> !self.full() && host_fits(target@.host),
            frame matches Ok(bytes) ==> bytes@ == wrapped(
                metadata_bytes(id, NEW, 0, 2, target@) + be64_bytes(global_id),
                Seq::empty(),
            ),
            frame matches Err(error) ==> error.message@ == (if self.full() {
                "Mux.Cool session stream limit reached"@
            } else {
                "Mux.Cool domain exceeds 255 bytes"@
            }),
    {
        if self.streams.len() >= self.max_streams {
            return Err(TransportError::new("Mux.Cool session stream limit reached"));
        }
        new_datagram_frame(id, target, global_id)
    }

    /// The opening frame was written, or could not be, in which case the
    /// session is over.
    pub fn opened(&mut self, id: u16, kind: Substream, written: bool) -> (done: Result<
        (),
        TransportError,
    >)
        requires
            old(self).wf(),
            !old(self).full(),
        ensures
            final(self).wf(),
            final(self).max_streams == old(self).max_streams,
            done is Ok <==> written,
            final(self).streams@ == (if written {
                old(self).streams@.insert(id, kind)
            } else {
                old(self).streams@
            }),
            done matches Err(error) ==> error.message@ == "Mux.Cool carrier write failed"@,
    {
        if !written {
            return Err(TransportError::new("Mux.Cool carrier write failed"));
        }
        self.streams.insert(id, kind);
        Ok(())
    }

    /// A substream ends on this side: the frame to write, and whether the
    /// session carried it.
    pub fn end(&mut self, id: u16) -> (ended: (Vec<u8>, bool))
        requires
            old(self).wf(),
        ensures
            final(self).wf(),
            final(self).max_streams == old(self).max_streams,
            ended.0@ == simple_bytes(id, END, 0),
            ended.1 == old(self).streams@.dom().contains(id),
            final(self).streams@ == old(self).streams@.remove(id),
    {
        let frame = simple_frame(id, END);
        let removed = self.streams.remove(&id).is_some();
        assert(!removed ==> self.streams@ =~= old(self).streams@.remove(id));
        (frame, removed)
    }

    /// Who gets the bytes of a frame: a stream where there are any, datagrams
    /// where the frame names their sender.
    pub fn deliver(&self, frame: &Frame) -> (delivery: Delivery)
        ensures
            ({
                let known = self.streams@.dom().contains(frame.id);
                let kind = self.streams@[frame.id];
                if known && kind is Stream && frame.payload@.len() > 0 {
                    delivery matches Delivery::Stream(bytes) && bytes@ == frame.payload@
                } else if known && kind is Datagram && frame.target is Some {
                    &&& delivery matches Delivery::Datagram(bytes, source)
                    &&& bytes@ == frame.payload@
                    &&& source@ == frame.target->0@
                } else {
                    delivery is Nothing
                }
            }),
            delivery@ == delivery_of(self.streams@, frame@),
    {
        let kind = match self.streams.get(&frame.id) {
            Some(kind) => *kind,
            None => return Delivery::Nothing,
        };
        let payload = copy_range(frame.payload.as_slice(), 0, frame.payload.len());
        assert(payload@ =~= frame.payload@);
        match kind {
            Substream::Stream => if payload.len() == 0 {
                Delivery::Nothing
            } else {
                Delivery::Stream(payload)
            },
            Substream::Datagram => match &frame.target {
                Some(source) => Delivery::Datagram(payload, source.duplicate()),
                None => Delivery::Nothing,
            },
        }
    }

    /// After the delivery of a frame: a substream whose reader is gone, or that
    /// the peer ended, leaves the session.
    pub fn delivered(&mut self, id: u16, status: u8, failed: bool) -> (closing: Closing)
        requires
            old(self).wf(),
        ensures
            final(self).wf(),
            final(self).max_streams == old(self).max_streams,
            ({
                let ends = failed || status == END;
                let known = old(self).streams@.dom().contains(id);
                &&& closing.released == (ends && known)
                &&& closing.shutdown == (ends && known && old(self).streams@[id] is Stream)
                &&& final(self).streams@ == (if ends {
                    old(self).streams@.remove(id)
                } else {
                    old(self).streams@
                })
            }),
            (closing, final(self).streams@) == closed_by(old(self).streams@, id, status, failed),
    {
        if !(failed || status == END) {
            return Closing { shutdown: false, released: false };
        }
        match self.streams.remove(&id) {
            Some(kind) => Closing {
                shutdown: match kind {
                    Substream::Stream => true,
                    Substream::Datagram => false,
                },
                released: true,
            },
            None => {
                assert(self.streams@ =~= old(self).streams@.remove(id));
                Closing { shutdown: false, released: false }
            },
        }
    }
}

/// The target that stands for the multiplexer itself.
pub open spec fn carrier() -> EndpointModel {
    EndpointModel { host: HostModel::Domain("v1.mux.cool"@), port: 0 }
}

/// The target that stands for the multiplexer itself.
pub fn carrier_target() -> (target: Endpoint)
    ensures
        target@ == (EndpointModel { host: HostModel::Domain("v1.mux.cool"@), port: 0 }),
        target@ == carrier(),
{
    Endpoint::new(Host::domain("v1.mux.cool"), 0)
}

/// A session of a pool: how many substreams count against it, and whether it is
/// over. The token is by which its owner finds it again.
#[derive(Clone, Copy, Debug, PartialEq, Eq, Structural)]
pub struct PoolSession {
    pub token: u64,
    pub active: usize,
    pub closed: bool,
}

/// How to get a substream.
#[derive(Clone, Copy, Debug, PartialEq, Eq, Structural)]
pub enum Acquire {
    /// On the session with this token.
    Reuse(u64),
    /// On a new connection.
    Dial,
}

/// The sessions that are not over.
pub open spec fn alive(sessions: Seq<PoolSession>) -> Seq<PoolSession> {
    sessions.filter(|session: PoolSession| !session.closed)
}

/// Whether `at` is the first of the sessions with the fewest substreams.
pub open spec fn least_busy(sessions: Seq<PoolSession>, at: int) -> bool {
    &&& 0 <= at < sessions.len()
    &&& forall|i: int| 0 <= i < sessions.len() ==> sessions[at].active <= #[trigger] sessions[i].active
    &&& forall|i: int| 0 <= i < at ==> sessions[at].active < #[trigger] sessions[i].active
}

/// A limit that is at least one.
pub open spec fn at_least_one(limit: usize) -> usize {
    if limit == 0 {
        1
    } else {
        limit
    }
}

/// The number that a counter gives, and the counter after it.
pub open spec fn numbered(next: u16) -> (u16, u16) {
    (
        if next == 0 {
            1
        } else {
            next
        },
        if next == u16::MAX {
            0
        } else {
            (next + 1) as u16
        },
    )
}

/// Sessions that are shared by streams to any target.
pub struct MuxCoolPool {
    pub config: MuxCoolConfig,
    pub sessions: Vec<PoolSession>,
    pub next_id: u16,
    pub next_global_id: u64,
}

impl MuxCoolPool {
    pub fn new(config: MuxCoolConfig) -> (pool: MuxCoolPool)
        ensures
            pool.config == config,
            pool.sessions@ == Seq::<PoolSession>::empty(),
            pool.next_id == 1,
            pool.next_global_id == 1,
    {
        MuxCoolPool { config, sessions: Vec::new(), next_id: 1, next_global_id: 1 }
    }

    /// The next number of a substream; never zero.
    pub fn take_id(&mut self) -> (id: u16)
        ensures
            id == (if old(self).next_id == 0 {
                1
            } else {
                old(self).next_id
            }),
            final(self).next_id == old(self).next_id.wrapping_add(1),
            (id, final(self).next_id) == numbered(old(self).next_id),
            final(self).next_global_id == old(self).next_global_id,
            final(self).config == old(self).config,
            final(self).sessions == old(self).sessions,
    {
        let raw = self.next_id;
        self.next_id = raw.wrapping_add(1);
        if raw == 0 {
            1
        } else {
            raw
        }
    }

    /// The next number of an association; never zero.
    pub fn take_global_id(&mut self) -> (id: u64)
        ensures
            id == (if old(self).next_global_id == 0 {
                1
            } else {
                old(self).next_global_id
            }),
            final(self).next_global_id == old(self).next_global_id.wrapping_add(1),
            final(self).next_id == old(self).next_id,
            final(self).config == old(self).config,
            final(self).sessions == old(self).sessions,
    {
        let raw = self.next_global_id;
        self.next_global_id = raw.wrapping_add(1);
        if raw == 0 {
            1
        } else {
            raw
        }
    }

    /// Drops the sessions that are over and picks the least busy of the others
    /// where it has room, counting one more against it. Else a new connection
    /// is to be made, unless there are as many as allowed.
    pub fn acquire_session(&mut self) -> (acquired: Result<Acquire, TransportError>)
        ensures
            final(self).config == old(self).config,
            final(self).next_id == old(self).next_id,
            final(self).next_global_id == old(self).next_global_id,
            ({
                let live = alive(old(self).sessions@);
                let room = at_least_one(old(self).config.max_streams);
                match acquired {
                    Ok(Acquire::Reuse(token)) => exists|at: int|
                        {
                            &&& #[trigger] least_busy(live, at)
                            &&& live[at].active < room
                            &&& live[at].token == token
                            &&& final(self).sessions@ == live.update(
                                at,
                                PoolSession { active: (live[at].active + 1) as usize, ..live[at] },
                            )
                        },
                    Ok(Acquire::Dial) => {
                        &&& final(self).sessions@ == live
                        &&& live.len() < at_least_one(old(self).config.max_connections)
                        &&& forall|i: int| 0 <= i < live.len() ==> #[trigger] live[i].active >= room
                    },
                    Err(error) => {
                        &&& error.message@ == "Mux.Cool pool capacity reached"@
                        &&& final(self).sessions@ == live
                        &&& live.len() >= at_least_one(old(self).config.max_connections)
                        &&& forall|i: int| 0 <= i < live.len() ==> #[trigger] live[i].active >= room
                    },
                }
            }),
    {
        let mut live: Vec<PoolSession> = Vec::new();
        for i in 0..self.sessions.len()
            invariant
                *self == *old(self),
                live@ == alive(self.sessions@.take(i as int)),
        {
            let session = self.sessions[i];
            proof {
                let keep = |session: PoolSession| !session.closed;
                assert(self.sessions@.take(i + 1).drop_last() =~= self.sessions@.take(i as int));
                reveal(Seq::filter);
            }
            if !session.closed {
                live.push(session);
            }
        }
        assert(self.sessions@.take(self.sessions@.len() as int) =~= self.sessions@);
        self.sessions = live;
        let room: usize = if self.config.max_streams == 0 {
            1
        } else {
            self.config.max_streams
        };
        if self.sessions.len() > 0 {
            let mut least: usize = 0;
            for i in 1..self.sessions.len()
                invariant
                    least < i <= self.sessions@.len(),
                    forall|j: int|
                        0 <= j < i ==> self.sessions@[least as int].active <= #[trigger] self.sessions@[j].active,
                    forall|j: int|
                        0 <= j < least ==> self.sessions@[least as int].active < #[trigger] self.sessions@[j].active,
            {
                if self.sessions[i].active < self.sessions[least].active {
                    least = i;
                }
            }
            let picked = self.sessions[least];
            assert(least_busy(self.sessions@, least as int));
            if picked.active < room {
                self.sessions[least] = PoolSession { active: picked.active + 1, ..picked };
                return Ok(Acquire::Reuse(picked.token));
            }
        }
        let limit: usize = if self.config.max_connections == 0 {
            1
        } else {
            self.config.max_connections
        };
        if self.sessions.len() >= limit {
            return Err(TransportError::new("Mux.Cool pool capacity reached"));
        }
        Ok(Acquire::Dial)
    }

    /// A new connection was made: its session carries one substream.
    pub fn add_session(&mut self, token: u64)
        ensures
            final(self).config == old(self).config,
            final(self).next_id == old(self).next_id,
            final(self).next_global_id == old(self).next_global_id,
            final(self).sessions@ == old(self).sessions@.push(
                PoolSession { token, active: 1, closed: false },
            ),
    {
        self.sessions.push(PoolSession { token, active: 1, closed: false });
    }

    /// A substream of the session with this token is gone.
    pub fn release(&mut self, token: u64)
        ensures
            final(self).config == old(self).config,
            final(self).next_id == old(self).next_id,
            final(self).next_global_id == old(self).next_global_id,
            final(self).sessions@ == released(old(self).sessions@, token),
    {
        let count: usize = self.sessions.len();
        for i in 0..count
            invariant
                count == self.sessions@.len(),
                self.config == old(self).config,
                self.next_id == old(self).next_id,
                self.next_global_id == old(self).next_global_id,
                self.sessions@.len() == old(self).sessions@.len(),
                forall|j: int|
                    0 <= j < i ==> self.sessions@[j] == #[trigger] released(
                        old(self).sessions@,
                        token,
                    )[j],
                forall|j: int|
                    i <= j < self.sessions@.len() ==> self.sessions@[j] == #[trigger] old(
                        self,
                    ).sessions@[j],
        {
            let session = self.sessions[i];
            if session.token == token {
                self.sessions[i] =
                PoolSession { active: session.active.wrapping_sub(1), ..session };
            }
        }
        assert(self.sessions@ =~= released(old(self).sessions@, token));
    }

    /// The session with this token is over.
    pub fn close(&mut self, token: u64)
        ensures
            final(self).config == old(self).config,
            final(self).next_id == old(self).next_id,
            final(self).next_global_id == old(self).next_global_id,
            final(self).sessions@ == closed(old(self).sessions@, token),
    {
        let count: usize = self.sessions.len();
        for i in 0..count
            invariant
                count == self.sessions@.len(),
                self.config == old(self).config,
                self.next_id == old(self).next_id,
                self.next_global_id == old(self).next_global_id,
                self.sessions@.len() == old(self).sessions@.len(),
                forall|j: int|
                    0 <= j < i ==> self.sessions@[j] == #[trigger] closed(
                        old(self).sessions@,
                        token,
                    )[j],
                forall|j: int|
                    i <= j < self.sessions@.len() ==> self.sessions@[j] == #[trigger] old(
                        self,
                    ).sessions@[j],
        {
            let session = self.sessions[i];
            if session.token == token {
                self.sessions[i] = PoolSession { closed: true, ..session };
            }
        }
        assert(self.sessions@ =~= closed(old(self).sessions@, token));
    }

    /// What the session with this token answered to the request for a stream:
    /// unless the stream is open, it does not count against the session.
    pub fn open(&mut self, token: u64, reply: OpenReply) -> (done: Result<(), TransportError>)
        ensures
            final(self).config == old(self).config,
            final(self).next_id == old(self).next_id,
            final(self).next_global_id == old(self).next_global_id,
            done is Ok <==> reply is Accepted,
            final(self).sessions@ == (if reply is Accepted {
                old(self).sessions@
            } else {
                released(old(self).sessions@, token)
            }),
            done matches Err(error) ==> error.message@ == reply.fault(
                "Mux.Cool session closed during open"@,
            ),
    {
        match reply {
            OpenReply::Accepted => Ok(()),
            OpenReply::Refused(error) => {
                self.release(token);
                Err(error)
            },
            OpenReply::NotAsked => {
                self.release(token);
                Err(TransportError::new("Mux.Cool session closed"))
            },
            OpenReply::Lost => {
                self.release(token);
                Err(TransportError::new("Mux.Cool session closed during open"))
            },
        }
    }

    /// What the session with this token answered to the request for an
    /// association: unless it is open, it does not count against the session.
    pub fn open_datagram(&mut self, token: u64, reply: OpenReply) -> (done: Result<
        (),
        TransportError,
    >)
        ensures
            final(self).config == old(self).config,
            final(self).next_id == old(self).next_id,
            final(self).next_global_id == old(self).next_global_id,
            done is Ok <==> reply is Accepted,
            final(self).sessions@ == (if reply is Accepted {
                old(self).sessions@
            } else {
                released(old(self).sessions@, token)
            }),
            done matches Err(error) ==> error.message@ == reply.fault(
                "Mux.Cool session closed during UDP open"@,
            ),
    {
        match reply {
            OpenReply::Accepted => Ok(()),
            OpenReply::Refused(error) => {
                self.release(token);
                Err(error)
            },
            OpenReply::NotAsked => {
                self.release(token);
                Err(TransportError::new("Mux.Cool session closed"))
            },
            OpenReply::Lost => {
                self.release(token);
                Err(TransportError::new("Mux.Cool session closed during UDP open"))
            },
        }
    }
}

/// What became of the request for a substream.
pub enum OpenReply {
    /// It is open.
    Accepted,
    /// The session refused it.
    Refused(TransportError),
    /// The session was over before it was asked.
    NotAsked,
    /// The session ended before it answered.
    Lost,
}

impl OpenReply {
    /// Why the substream is not open; `lost` is what is said of a session that
    /// ended meanwhile.
    pub open spec fn fault(self, lost: Seq<char>) -> Seq<char> {
        match self {
            OpenReply::Refused(error) => error.message@,
            OpenReply::NotAsked => "Mux.Cool session closed"@,
            _ => lost,
        }
    }
}

/// The sessions with one substream less counted against the one with a token.
pub open spec fn released(sessions: Seq<PoolSession>, token: u64) -> Seq<PoolSession> {
    Seq::new(
        sessions.len(),
        |i: int|
            if sessions[i].token == token {
                PoolSession { active: sessions[i].active.wrapping_sub(1), ..sessions[i] }
            } else {
                sessions[i]
            },
    )
}

/// The sessions with the one with a token over.
pub open spec fn closed(sessions: Seq<PoolSession>, token: u64) -> Seq<PoolSession> {
    Seq::new(
        sessions.len(),
        |i: int|
            if sessions[i].token == token {
                PoolSession { closed: true, ..sessions[i] }
            } else {
                sessions[i]
            },
    )
}

/// A pool never carries more on a session than its limit allows, nor more
/// connections: both hold after any acquisition when they held before.
pub open spec fn within_limits(config: MuxCoolConfig, sessions: Seq<PoolSession>) -> bool {
    &&& sessions.len() <= at_least_one(config.max_connections)
    &&& forall|i: int|
        0 <= i < sessions.len() ==> (#[trigger] sessions[i]).active <= at_least_one(
            config.max_streams,
        )
}

/// Dropping the sessions that are over keeps the limits.
pub proof fn law_alive_within_limits(config: MuxCoolConfig, sessions: Seq<PoolSession>)
    requires
        within_limits(config, sessions),
    ensures
        within_limits(config, alive(sessions)),
    decreases sessions.len(),
{
    reveal(Seq::filter);
    if sessions.len() > 0 {
        let rest = sessions.drop_last();
        assert(within_limits(config, rest));
        law_alive_within_limits(config, rest);
        let live = alive(sessions);
        assert forall|i: int| 0 <= i < live.len() implies (#[trigger] live[i]).active
            <= at_least_one(config.max_streams) by {
            if i < alive(rest).len() {
                assert(live[i] == alive(rest)[i]);
            } else {
                assert(live[i] == sessions.last());
            }
        }
        lemma_alive_len(sessions);
    }
}

proof fn lemma_alive_len(sessions: Seq<PoolSession>)
    ensures
        alive(sessions).len() <= sessions.len(),
    decreases sessions.len(),
{
    reveal(Seq::filter);
    if sessions.len() > 0 {
        lemma_alive_len(sessions.drop_last());
    }
}

/// Counting one more substream against a session with room, or adding a
/// connection where fewer than the limit are there, keeps the limits.
pub proof fn law_acquire_within_limits(config: MuxCoolConfig, live: Seq<PoolSession>, at: int, token: u64)
    requires
        within_limits(config, live),
    ensures
        0 <= at < live.len() && live[at].active < at_least_one(config.max_streams)
            ==> within_limits(
            config,
            live.update(at, PoolSession { active: (live[at].active + 1) as usize, ..live[at] }),
        ),
        live.len() < at_least_one(config.max_connections) ==> within_limits(
            config,
            live.push(PoolSession { token, active: 1, closed: false }),
        ),
{
}

/// A request that failed leaves no trace: the session that was picked for it
/// counts as many substreams as before.
pub proof fn law_failed_open(live: Seq<PoolSession>, at: int)
    requires
        0 <= at < live.len(),
        live[at].active < usize::MAX,
        forall|i: int| 0 <= i < live.len() && i != at ==> #[trigger] live[i].token != live[at].token,
    ensures
        released(
            live.update(at, PoolSession { active: (live[at].active + 1) as usize, ..live[at] }),
            live[at].token,
        ) == live,
{
    let picked = live.update(
        at,
        PoolSession { active: (live[at].active + 1) as usize, ..live[at] },
    );
    assert(released(picked, live[at].token) =~= live);
}

/// A session that is over is not picked again.
pub proof fn law_closed_not_alive(sessions: Seq<PoolSession>, token: u64)
    ensures
        forall|i: int|
            0 <= i < alive(closed(sessions, token)).len() ==> (#[trigger] alive(
                closed(sessions, token),
            )[i]).token != token,
    decreases sessions.len(),
{
    reveal(Seq::filter);
    if sessions.len() > 0 {
        let rest = sessions.drop_last();
        law_closed_not_alive(rest, token);
        let over = closed(sessions, token);
        assert(over.drop_last() =~= closed(rest, token));
        let live = alive(over);
        assert forall|i: int| 0 <= i < live.len() implies (#[trigger] live[i]).token != token by {
            if i < alive(closed(rest, token)).len() {
                assert(live[i] == alive(closed(rest, token))[i]);
            } else {
                assert(live[i] == over.last());
            }
        }
    }
}

/// No connection could be made for a new session.
pub fn carrier_failed(message: &str) -> (error: TransportError)
    ensures
        error.message@ == "Mux.Cool carrier: "@ + message@,
{
    TransportError { message: join("Mux.Cool carrier: ", message) }
}

/// The session of an association is over: what its reader is told.
pub fn association_closed() -> (error: IoError)
    ensures
        error.says(IoErrorKind::Closed, "Mux.Cool UDP association closed"@),
{
    IoError::new(IoErrorKind::Closed, "Mux.Cool UDP association closed")
}

/// The session of an association is over: what its writer is told.
pub fn sender_closed() -> (error: IoError)
    ensures
        error.says(IoErrorKind::Closed, "Mux.Cool UDP sender closed"@),
{
    IoError::new(IoErrorKind::Closed, "Mux.Cool UDP sender closed")
}

/// Gives a datagram to a reader with room for `capacity` bytes.
pub fn receive_datagram(packet: Vec<u8>, source: Endpoint, capacity: usize) -> (received: Result<
    (Vec<u8>, Endpoint),
    IoError,
>)
    ensures
        received is Ok <==> packet@.len() <= capacity,
        received matches Ok(given) ==> given == (packet, source),
        received matches Err(error) ==> error.says(
            IoErrorKind::InvalidInput,
            "Mux.Cool receive buffer is too small"@,
        ),
{
    if packet.len() > capacity {
        return Err(IoError::new(IoErrorKind::InvalidInput, "Mux.Cool receive buffer is too small"));
    }
    Ok((packet, source))
}

/// The frame that opens a stream or, with the network two and a number behind
/// the target, an association: the length of the metadata, the number of the
/// substream, the status one, no options, the network, the port, and the target
/// with the tags one, two and three.
pub proof fn law_opening_layout(id: u16, target: EndpointModel, network: u8, number: Seq<u8>)
    requires
        target.host.wf(),
        host_fits(target.host),
        number.len() <= 8,
    ensures
        ({
            let bytes = wrapped(
                metadata_bytes(id, NEW, 0, network, target) + number,
                Seq::empty(),
            );
            &&& bytes.len() == 9 + host_len(target.host) + number.len()
            &&& bytes[0] * 256 + bytes[1] == bytes.len() - 2
            &&& bytes[2] * 256 + bytes[3] == id
            &&& bytes[4] == 1
            &&& bytes[5] == 0
            &&& bytes[6] == network
            &&& bytes[7] * 256 + bytes[8] == target.port
            &&& spells_host(bytes, 9, 1, 2, 3, target.host)
            &&& bytes.skip(9 + host_len(target.host)) == number
        }),
{
    let metadata = metadata_bytes(id, NEW, 0, network, target) + number;
    let bytes = wrapped(metadata, Seq::empty());
    law_host_spelled(tags(), target.host, Seq::empty(), Seq::empty());
    let before = be16_bytes(metadata.len() as u16) + be16_bytes(id) + seq![NEW, 0u8, network]
        + be16_bytes(target.port);
    assert(bytes =~= before + host_bytes(tags(), target.host) + number);
    law_host_spelled(tags(), target.host, before, number);
    assert(bytes.skip(9 + host_len(target.host)) =~= number);
}

/// The frame of a datagram has the status two, the option one and the network
/// two, and behind the metadata the length of the payload and the payload.
pub proof fn law_datagram_layout(id: u16, target: EndpointModel, payload: Seq<u8>)
    requires
        target.host.wf(),
        host_fits(target.host),
        0 < payload.len() <= 0xffff,
    ensures
        ({
            let bytes = wrapped(metadata_bytes(id, KEEP, DATA, 2, target), payload);
            let end = 9 + host_len(target.host);
            &&& bytes.len() == end + 2 + payload.len()
            &&& bytes[0] * 256 + bytes[1] == end - 2
            &&& bytes[2] * 256 + bytes[3] == id
            &&& bytes[4] == 2
            &&& bytes[5] == 1
            &&& bytes[6] == 2
            &&& bytes[7] * 256 + bytes[8] == target.port
            &&& spells_host(bytes, 9, 1, 2, 3, target.host)
            &&& bytes[end] * 256 + bytes[end + 1] == payload.len()
            &&& bytes.skip(end + 2) == payload
        }),
{
    let metadata = metadata_bytes(id, KEEP, DATA, 2, target);
    let bytes = wrapped(metadata, payload);
    law_host_spelled(tags(), target.host, Seq::empty(), Seq::empty());
    let before = be16_bytes(metadata.len() as u16) + be16_bytes(id) + seq![KEEP, DATA, 2u8]
        + be16_bytes(target.port);
    let after = be16_bytes(payload.len() as u16) + payload;
    assert(bytes =~= before + host_bytes(tags(), target.host) + after);
    law_host_spelled(tags(), target.host, before, after);
    let end = 9 + host_len(target.host);
    assert(bytes[end] == after[0] && bytes[end + 1] == after[1]);
    assert(bytes.skip(end + 2) =~= payload);
}

/// A frame without a target has metadata of four bytes: the number of the
/// substream, the status and the options. Bytes of a stream have the status two
/// and the option one; the end of a stream has the status three.
pub proof fn law_simple_layout(id: u16, status: u8, options: u8, payload: Seq<u8>)
    requires
        payload.len() <= 0xffff,
    ensures
        ({
            let bytes = simple_bytes(id, status, options);
            &&& bytes.len() == 6
            &&& bytes[0] == 0 && bytes[1] == 4
            &&& bytes[2] * 256 + bytes[3] == id
            &&& bytes[4] == status
            &&& bytes[5] == options
        }),
        data_bytes(id, payload).take(6) == simple_bytes(id, 2, 1),
        data_bytes(id, payload)[6] * 256 + data_bytes(id, payload)[7] == payload.len(),
        data_bytes(id, payload).skip(8) == payload,
        END == 3,
        MAX_PAYLOAD == 61440,
{
    let bytes = data_bytes(id, payload);
    assert(bytes.take(6) =~= simple_bytes(id, 2, 1));
    assert(bytes.skip(8) =~= payload);
}

/// What is read of a frame without a target: its number, its status and, where
/// the lowest bit of the options is set, the payload behind its length.
pub proof fn law_frame_read(id: u16, status: u8, options: u8, payload: Seq<u8>, after: Seq<u8>)
    requires
        payload.len() <= 0xffff,
    ensures
        ({
            let head = seq![0u8, 4u8, (id / 256) as u8, (id % 256) as u8, status, options];
            let size = seq![(payload.len() / 256) as u8, (payload.len() % 256) as u8];
            if options & 1u8 == 0 {
                frame_at_start(head + after) == FrameScanModel::Found(
                    FrameModel { id, status, payload: Seq::empty(), target: None },
                    6,
                )
            } else {
                frame_at_start(head + size + payload + after) == FrameScanModel::Found(
                    FrameModel { id, status, payload, target: None },
                    8 + payload.len() as int,
                )
            }
        }),
{
    let head = seq![0u8, 4u8, (id / 256) as u8, (id % 256) as u8, status, options];
    let size = seq![(payload.len() / 256) as u8, (payload.len() % 256) as u8];
    if options & 1u8 == 0 {
        let bytes = head + after;
        let metadata = bytes.subrange(2, 6);
        assert(bytes[0] == 0 && bytes[1] == 4);
        assert(metadata[0] == head[2] && metadata[1] == head[3] && metadata[2] == status
            && metadata[3] == options);
    } else {
        let bytes = head + size + payload + after;
        let metadata = bytes.subrange(2, 6);
        assert(bytes[0] == 0 && bytes[1] == 4);
        assert(metadata[0] == head[2] && metadata[1] == head[3] && metadata[2] == status
            && metadata[3] == options);
        assert(bytes[6] == size[0] && bytes[7] == size[1]);
        assert(bytes.subrange(8, 8 + payload.len() as int) =~= payload);
    }
}

/// Metadata of fewer than four or more than 1024 bytes are refused; a frame that
/// breaks off is waited for.
pub proof fn law_frame_length(bytes: Seq<u8>)
    ensures
        bytes.len() < 2 ==> frame_at_start(bytes) is Short,
        bytes.len() >= 2 ==> {
            let length = bytes[0] * 256 + bytes[1];
            &&& length < 4 || length > 1024 ==> frame_at_start(bytes) is Bad
            &&& 4 <= length <= 1024 && bytes.len() < 2 + length ==> frame_at_start(bytes) is Short
        },
{
}

/// A session that is asked for takes the place with the fewest streams, and a
/// limit of nothing counts as one.
pub proof fn law_least_busy(sessions: Seq<PoolSession>, at: int, other: int)
    requires
        least_busy(sessions, at),
        0 <= other < sessions.len(),
    ensures
        sessions[at].active <= sessions[other].active,
        sessions[at].active == sessions[other].active ==> at <= other,
        at_least_one(0) == 1,
        forall|limit: usize| limit > 0 ==> #[trigger] at_least_one(limit) == limit,
{
}

/// Bytes of a stream that one side puts into a frame reach the reader of that
/// stream on the other side, and the stream goes on. Where the session carries
/// no such stream they reach no one.
pub proof fn law_stream_delivered(
    streams: Map<u16, Substream>,
    id: u16,
    payload: Seq<u8>,
    after: Seq<u8>,
)
    requires
        0 < payload.len() <= 0xffff,
    ensures
        frame_at_start(data_bytes(id, payload) + after) matches FrameScanModel::Found(frame, len)
            && len == data_bytes(id, payload).len() && (streams.dom().contains(id) && streams[id]
            == Substream::Stream ==> delivery_of(streams, frame) == DeliveryModel::Stream(payload))
            && (!streams.dom().contains(id) ==> delivery_of(streams, frame) is Nothing)
            && closed_by(streams, id, frame.status, false).1 == streams && !closed_by(
            streams,
            id,
            frame.status,
            false,
        ).0.released,
{
    law_data_round_trip(id, payload, after);
}

/// A datagram that one side puts into a frame reaches the reader of that
/// association on the other side, with the endpoint that it names.
pub proof fn law_datagram_delivered(
    streams: Map<u16, Substream>,
    id: u16,
    target: EndpointModel,
    payload: Seq<u8>,
    after: Seq<u8>,
)
    requires
        target.host.wf(),
        host_fits(target.host),
        0 < payload.len() <= 0xffff,
        streams.dom().contains(id),
        streams[id] == Substream::Datagram,
    ensures
        frame_at_start(wrapped(metadata_bytes(id, KEEP, DATA, 2, target), payload) + after)
            matches FrameScanModel::Found(frame, _) && delivery_of(streams, frame)
            == DeliveryModel::Datagram(payload, target) && closed_by(
            streams,
            id,
            frame.status,
            false,
        ).1 == streams,
{
    law_datagram_round_trip(id, target, payload, after);
}

/// A substream that one side ends, or whose reader is gone, leaves the session of
/// the other, which no other substream does; the reader of a stream is told.
pub proof fn law_ended(streams: Map<u16, Substream>, id: u16, other: u16, after: Seq<u8>)
    requires
        streams.dom().contains(id),
        other != id,
    ensures
        frame_at_start(simple_bytes(id, END, 0) + after) matches FrameScanModel::Found(frame, _)
            && frame.id == id && !closed_by(streams, id, frame.status, false).1.dom().contains(id)
            && closed_by(streams, id, frame.status, false).0.released && closed_by(
            streams,
            id,
            frame.status,
            false,
        ).0.shutdown == (streams[id] == Substream::Stream),
        ({
            let left = closed_by(streams, id, KEEP, true).1;
            &&& !left.dom().contains(id)
            &&& left.dom().contains(other) == streams.dom().contains(other)
            &&& left.dom().contains(other) ==> left[other] == streams[other]
        }),
{
    law_simple_round_trip(id, END, after);
}

/// Substreams are numbered one after the other, and zero is never a number; the
/// multiplexer itself is asked for under a name of its own at port zero.
pub proof fn law_numbered(next: u16)
    ensures
        numbered(next).0 > 0,
        next > 0 ==> numbered(next).0 == next,
        next < 65535 ==> numbered(next).1 == next + 1,
        numbered(65535) == (65535u16, 0u16),
        carrier().host == HostModel::Domain("v1.mux.cool"@) && carrier().port == 0,
{
}

/// A session takes another substream while it carries fewer than it may.
pub proof fn law_full(session: MuxSession)
    ensures
        session.full() <==> session.streams@.len() >= session.max_streams,
{
}

/// A session that one substream leaves counts one less, and one that is over is
/// marked so; no other session changes.
pub proof fn law_one_session(sessions: Seq<PoolSession>, token: u64, at: int)
    requires
        0 <= at < sessions.len(),
    ensures
        released(sessions, token).len() == sessions.len(),
        closed(sessions, token).len() == sessions.len(),
        sessions[at].token == token && sessions[at].active > 0 ==> released(sessions, token)[at]
            == (PoolSession { active: (sessions[at].active - 1) as usize, ..sessions[at] }),
        sessions[at].token == token ==> closed(sessions, token)[at] == (PoolSession {
            closed: true,
            ..sessions[at]
        }),
        sessions[at].token != token ==> released(sessions, token)[at] == sessions[at] && closed(
            sessions,
            token,
        )[at] == sessions[at],
{
}

/// Only metadata of more than seven bytes for the network two name a target.
pub proof fn law_target_named(metadata: Seq<u8>)
    ensures
        metadata.len() <= 7 || metadata[4] != 2 ==> metadata_target(metadata) == Ok::<
            Option<EndpointModel>,
            Fault,
        >(None),
        metadata.len() > 7 && metadata[4] == 2 ==> !(metadata_target(metadata) matches Ok(None)),
{
}

} // verus!
