//! Flows whose first bytes were read already: those bytes come first, and DNS
//! answers that pass are remembered.
use crate::dns::cache::LATEST;
use crate::dns::reverse::{recorded, ReverseDns};
use crate::inspect::protocol::{dns_response_addresses, meta_view, response_addresses, DnsQueryMeta};
use crate::octets::{be16, copy_range, push_all, read_be16};
use crate::types::{Endpoint, IoError, IoErrorKind};
use vstd::prelude::*;

verus! {

/// No more than this is kept of an answer on a stream.
pub const MAX_RESPONSE: usize = 65_537;

/// A stream whose first bytes were read already.
pub struct ObservedStream {
    pub prefix: Vec<u8>,
    pub position: usize,
    pub query: Option<DnsQueryMeta>,
    pub response: Vec<u8>,
}

/// The answer that a stream carries behind its length, once it is complete.
pub open spec fn framed(response: Seq<u8>) -> Option<Seq<u8>> {
    if response.len() < 2 || response.len() < 2 + be16(response[0], response[1]) {
        None
    } else {
        Some(response.subrange(2, 2 + be16(response[0], response[1])))
    }
}

/// How the memory of answers changes by a packet that answers a query.
pub open spec fn remembered(
    before: ReverseDns,
    after: ReverseDns,
    query: (u16, Seq<char>),
    packet: Seq<u8>,
    now: u64,
) -> bool {
    &&& after.wf()
    &&& after.capacity == before.capacity
    &&& before.capacity == 0 ==> after.memory() == before.memory()
    &&& before.capacity > 0 ==> recorded(
        before.memory(),
        after.memory(),
        before.capacity as nat,
        query.1,
        response_addresses(packet, query.0),
        now,
    )
}

impl ObservedStream {
    pub open spec fn wf(self) -> bool {
        self.position <= self.prefix@.len()
    }

    /// The first bytes that were not given out again.
    pub open spec fn waiting(self) -> Seq<u8> {
        self.prefix@.skip(self.position as int)
    }

    pub fn new(prefix: Vec<u8>, query: Option<DnsQueryMeta>) -> (stream: ObservedStream)
        ensures
            stream.wf(),
            stream.waiting() == prefix@,
            stream.query == query,
            stream.response@.len() == 0,
    {
        let stream = ObservedStream { prefix, position: 0, query, response: Vec::new() };
        assert(stream.waiting() =~= prefix@);
        stream
    }

    /// The bytes that a read of up to `room` bytes gives; `None` where the
    /// stream itself is to be read.
    pub fn poll_read(&mut self, room: usize) -> (bytes: Option<Vec<u8>>)
        requires
            old(self).wf(),
        ensures
            final(self).wf(),
            final(self).query == old(self).query,
            final(self).response == old(self).response,
            match bytes {
                Some(bytes) => {
                    &&& old(self).waiting().len() > 0
                    &&& bytes@ + final(self).waiting() == old(self).waiting()
                    &&& bytes@.len() == (if room < old(self).waiting().len() {
                        room as nat
                    } else {
                        old(self).waiting().len()
                    })
                },
                None => old(self).waiting().len() == 0 && *final(self) == *old(self),
            },
    {
        if self.position >= self.prefix.len() {
            return None;
        }
        let left: usize = self.prefix.len() - self.position;
        let count: usize = if room < left {
            room
        } else {
            left
        };
        let bytes = copy_range(self.prefix.as_slice(), self.position, self.position + count);
        self.position = self.position + count;
        assert(bytes@ + self.waiting() =~= old(self).waiting());
        Some(bytes)
    }

    /// Bytes were written to the stream: a DNS answer among them is remembered
    /// once it is complete.
    pub fn written(&mut self, bytes: &[u8], reverse: &mut ReverseDns, now: u64)
        requires
            old(self).wf(),
            old(reverse).wf(),
            now <= LATEST,
        ensures
            final(self).wf(),
            final(self).waiting() == old(self).waiting(),
            if old(self).query is None || old(self).response@.len() >= MAX_RESPONSE {
                *final(self) == *old(self) && *final(reverse) == *old(reverse)
            } else {
                let response = old(self).response@ + bytes@;
                &&& final(self).response@ == response
                &&& match framed(response) {
                    Some(packet) => final(self).query is None && remembered(
                        *old(reverse),
                        *final(reverse),
                        meta_view(old(self).query)->Some_0,
                        packet,
                        now,
                    ),
                    None => final(self).query == old(self).query && *final(reverse)
                        == *old(reverse),
                }
            },
    {
        if self.query.is_none() || self.response.len() >= MAX_RESPONSE {
            return;
        }
        push_all(&mut self.response, bytes);
        if self.response.len() < 2 {
            return;
        }
        let length: usize = read_be16(self.response.as_slice(), 0) as usize;
        if self.response.len() - 2 < length {
            return;
        }
        if let Some(query) = self.query.take() {
            let packet = copy_range(self.response.as_slice(), 2, 2 + length);
            assert(packet@ == framed(self.response@)->Some_0);
            let addresses = dns_response_addresses(packet.as_slice(), query.id);
            reverse.record(query.name.as_str(), addresses.as_slice(), now);
        }
    }
}

/// Whatever the size of the reads, they give the first bytes back in order.
pub proof fn law_replayed(pieces: Seq<Seq<u8>>, waiting: Seq<Seq<u8>>)
    requires
        waiting.len() == pieces.len() + 1,
        forall|i: int|
            0 <= i < pieces.len() ==> #[trigger] pieces[i] + waiting[i + 1] == waiting[i],
        waiting.last().len() == 0,
    ensures
        crate::transport::h2_tunnel::joined(pieces) == waiting[0],
    decreases pieces.len(),
{
    if pieces.len() == 0 {
        assert(waiting[0] =~= Seq::empty());
    } else {
        let rest = pieces.skip(1);
        let later = waiting.skip(1);
        assert forall|i: int| 0 <= i < rest.len() implies #[trigger] rest[i] + later[i + 1]
            == later[i] by {
            assert(pieces[i + 1] + waiting[i + 2] == waiting[i + 1]);
        }
        law_replayed(rest, later);
        assert(pieces[0] + waiting[1] == waiting[0]);
    }
}

/// A datagram socket of which some datagrams were received already.
pub struct ObservedDatagram {
    pub replay: Vec<(Vec<u8>, Endpoint)>,
    pub query: Option<DnsQueryMeta>,
}

impl ObservedDatagram {
    /// The datagram that a receive gives; `None` where the socket itself is to
    /// be asked. One that does not fit is lost.
    pub fn poll_recv_from(&mut self, room: usize) -> (packet: Option<
        Result<(Vec<u8>, Endpoint), IoError>,
    >)
        ensures
            final(self).query == old(self).query,
            if old(self).replay@.len() == 0 {
                packet is None && final(self).replay@ == old(self).replay@
            } else {
                let first = old(self).replay@[0];
                &&& final(self).replay@ == old(self).replay@.skip(1)
                &&& if first.0@.len() > room {
                    packet matches Some(Err(error)) && error.says(
                        IoErrorKind::InvalidInput,
                        "replay datagram exceeds buffer"@,
                    )
                } else {
                    packet matches Some(Ok(found)) && found == first
                }
            },
    {
        if self.replay.len() == 0 {
            return None;
        }
        let (packet, endpoint) = self.replay.remove(0);
        assert(self.replay@ =~= old(self).replay@.skip(1));
        if packet.len() > room {
            return Some(
                Err(IoError::new(IoErrorKind::InvalidInput, "replay datagram exceeds buffer")),
            );
        }
        Some(Ok((packet, endpoint)))
    }

    /// A datagram was sent: a DNS answer is remembered.
    pub fn sent(&self, bytes: &[u8], reverse: &mut ReverseDns, now: u64)
        requires
            old(reverse).wf(),
            now <= LATEST,
        ensures
            match meta_view(self.query) {
                Some(query) => remembered(*old(reverse), *final(reverse), query, bytes@, now),
                None => *final(reverse) == *old(reverse),
            },
    {
        if let Some(query) = &self.query {
            let addresses = dns_response_addresses(bytes, query.id);
            reverse.record(query.name.as_str(), addresses.as_slice(), now);
        }
    }
}

/// An answer stands behind its length in two bytes and is complete once as many
/// bytes have come.
pub proof fn law_framed(packet: Seq<u8>, after: Seq<u8>, cut: int)
    requires
        packet.len() <= 0xffff,
        0 <= cut < packet.len() + 2,
    ensures
        ({
            let frame = seq![(packet.len() / 256) as u8, (packet.len() % 256) as u8] + packet;
            &&& framed(frame + after) == Some(packet)
            &&& framed(frame.take(cut)) is None
        }),
{
    let frame = seq![(packet.len() / 256) as u8, (packet.len() % 256) as u8] + packet;
    let bytes = frame + after;
    assert(bytes[0] == frame[0] && bytes[1] == frame[1]);
    assert(bytes.subrange(2, 2 + packet.len() as int) =~= packet);
    if cut >= 2 {
        assert(frame.take(cut)[0] == frame[0] && frame.take(cut)[1] == frame[1]);
    }
}

/// An answer to the query of a flow is remembered: the address that it gives
/// leads back to the name that was asked for, for as long as the answer lives.
/// An answer to another query is not.
pub proof fn law_answer_remembered(
    before: ReverseDns,
    after: ReverseDns,
    query: (u16, Seq<char>),
    packet: Seq<u8>,
    message: crate::dns::wire::RequestModel,
    ip: crate::types::IpModel,
    ttl: u32,
    now: u64,
    later: u64,
)
    requires
        before.capacity > 0,
        remembered(before, after, query, packet, now),
        crate::dns::wire::message_parts(packet) == Ok::<
            crate::dns::wire::RequestModel,
            Seq<char>,
        >(message),
        crate::dns::wire::message_answers(packet) == Some(seq![(Some(ip), ttl)]),
        ttl > 0,
    ensures
        message.is_response && message.id == query.0 ==> after.domain_of(ip, later) == (if later
            < now + ttl * 1_000_000_000 {
            Some(query.1)
        } else {
            None
        }),
        !message.is_response || message.id != query.0 ==> after.memory() == before.memory(),
{
    let answers = seq![(Some(ip), ttl)];
    crate::inspect::protocol::law_response_addresses(packet, message, answers, 0, query.0);
    let none = Seq::<(Option<crate::types::IpModel>, u32)>::empty();
    assert(answers.take(0) =~= none);
    assert(answers.skip(1) =~= none);
    assert(crate::inspect::protocol::with_address(none) =~= Seq::empty());
    assert(crate::inspect::protocol::with_address(answers) =~= seq![(ip, ttl)]);
    if message.is_response && message.id == query.0 {
        crate::dns::reverse::law_forgotten(before, after, query.1, ip, ttl, now, later);
    } else {
        assert(response_addresses(packet, query.0) =~= Seq::empty());
        crate::dns::reverse::law_dead_answers(
            before,
            after,
            query.1,
            response_addresses(packet, query.0),
            now,
        );
    }
}

} // verus!
