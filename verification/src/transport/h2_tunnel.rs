//! Tunnels over HTTP/2 CONNECT, with the padding of the first frames that
//! NaiveProxy negotiates.
use crate::crypto::random_between;
use crate::octets::{be16, be16_bytes, copy_range, lemma_be16_round_trip, push_all, push_be16, read_be16};
use crate::text::{chars_of, find, find_chars, join, lower, utf8};
use crate::transport::config::TransportError;
use crate::types::{StreamError, StreamErrorKind};
use vstd::prelude::*;

verus! {

/// How many frames in each direction are padded.
pub const FIRST_PADDINGS: usize = 8;

/// What a tunnel asks its proxy for.
#[derive(Clone, Debug, Default, PartialEq, Eq)]
pub struct H2TunnelOptions {
    pub headers: Vec<(String, String)>,
    pub negotiate_naive_padding: bool,
}

/// A padded frame: the payload's length, the padding's length, the payload and
/// zeros.
pub open spec fn padded_frame(payload: Seq<u8>, padding: u8) -> Seq<u8> {
    be16_bytes((payload.len() % 0x1_0000) as u16) + seq![padding] + payload + Seq::new(
        padding as nat,
        |i: int| 0u8,
    )
}

/// Pads a frame. Of the length of more than 65535 bytes only the low sixteen
/// bits are written.
pub fn pad_frame(payload: &[u8], padding: u8) -> (frame: Vec<u8>)
    ensures
        frame@ == padded_frame(payload@, padding),
{
    let mut frame: Vec<u8> = Vec::new();
    push_be16(&mut frame, (payload.len() % 0x1_0000) as u16);
    frame.push(padding);
    push_all(&mut frame, payload);
    let ghost head = frame@;
    for i in 0..padding
        invariant
            frame@ == head + Seq::new(i as nat, |j: int| 0u8),
    {
        frame.push(0);
        assert(frame@ =~= head + Seq::new((i + 1) as nat, |j: int| 0u8));
    }
    assert(frame@ =~= padded_frame(payload@, padding));
    frame
}

/// Pads a frame by a random number of bytes.
pub fn encode_padded(payload: &[u8]) -> (frame: Vec<u8>)
    ensures
        exists|padding: u8| frame@ == #[trigger] padded_frame(payload@, padding),
{
    let padding: u8 = random_between(0, 255) as u8;
    pad_frame(payload, padding)
}

/// The sending side of a tunnel: whether frames are padded, and how many were.
pub struct PaddingEncoder {
    pub enabled: bool,
    pub count: usize,
}

impl PaddingEncoder {
    pub fn new(enabled: bool) -> (encoder: PaddingEncoder)
        ensures
            encoder.enabled == enabled,
            encoder.count == 0,
    {
        PaddingEncoder { enabled, count: 0 }
    }

    /// The bytes to send for a payload, with `padding` bytes where it is one of
    /// the first.
    pub fn encode(&mut self, payload: &[u8], padding: u8) -> (frame: Vec<u8>)
        ensures
            final(self).enabled == old(self).enabled,
            ({
                let pads = old(self).enabled && old(self).count < FIRST_PADDINGS;
                &&& frame@ == (if pads {
                    padded_frame(payload@, padding)
                } else {
                    payload@
                })
                &&& final(self).count == (if pads {
                    (old(self).count + 1) as usize
                } else {
                    old(self).count
                })
            }),
            old(self).enabled ==> frame@ == sent(
                seq![payload@],
                seq![padding],
                old(self).count as nat,
            ),
            !old(self).enabled ==> frame@ == payload@,
    {
        proof {
            reveal_with_fuel(sent, 2);
            assert(seq![payload@].skip(1) =~= Seq::empty());
        }
        if self.enabled && self.count < FIRST_PADDINGS {
            self.count = self.count + 1;
            let frame = pad_frame(payload, padding);
            assert(frame@ + Seq::empty() =~= frame@);
            frame
        } else {
            let frame = copy_range(payload, 0, payload.len());
            assert(frame@ =~= payload@);
            assert(frame@ + Seq::empty() =~= frame@);
            frame
        }
    }
}

/// What a decoder makes of the bytes it holds.
#[verifier::ext_equal]
pub struct Drained {
    /// The payload that comes out.
    pub out: Seq<u8>,
    /// The bytes that stay.
    pub rest: Seq<u8>,
    /// How many padded frames were taken in all.
    pub decoded: nat,
}

/// Takes padded frames off the front as long as they are complete and fewer
/// than the first eight were taken; then everything is payload.
pub open spec fn drained(bytes: Seq<u8>, decoded: nat) -> Drained
    decreases FIRST_PADDINGS - decoded,
{
    if decoded >= FIRST_PADDINGS {
        Drained { out: bytes, rest: Seq::empty(), decoded }
    } else if bytes.len() < 3 {
        Drained { out: Seq::empty(), rest: bytes, decoded }
    } else {
        let payload = be16(bytes[0], bytes[1]) as int;
        let frame = 3 + payload + bytes[2];
        if bytes.len() < frame {
            Drained { out: Seq::empty(), rest: bytes, decoded }
        } else {
            let next = drained(bytes.skip(frame), decoded + 1);
            Drained {
                out: bytes.subrange(3, 3 + payload) + next.out,
                rest: next.rest,
                decoded: next.decoded,
            }
        }
    }
}

/// The receiving side of a tunnel.
pub struct PaddingDecoder {
    pub enabled: bool,
    pub decoded: usize,
    pub buffered: Vec<u8>,
}

impl PaddingDecoder {
    pub fn new(enabled: bool) -> (decoder: PaddingDecoder)
        ensures
            decoder.enabled == enabled,
            decoder.decoded == 0,
            decoder.buffered@ == Seq::<u8>::empty(),
            decoder.wf(),
    {
        PaddingDecoder { enabled, decoded: 0, buffered: Vec::new() }
    }

    /// Nothing is held back once the padded frames are over.
    pub open spec fn wf(self) -> bool {
        &&& self.decoded <= FIRST_PADDINGS
        &&& (!self.enabled || self.decoded == FIRST_PADDINGS) ==> self.buffered@.len() == 0
    }

    /// What the decoder holds and how far it is.
    pub open spec fn holds(self, enabled: bool, rest: Seq<u8>, decoded: nat) -> bool {
        self.enabled == enabled && self.buffered@ == rest && self.decoded == decoded
    }

    /// Takes bytes of the tunnel and gives the payload that they complete.
    pub fn push(&mut self, chunk: &[u8]) -> (output: Vec<u8>)
        requires
            old(self).wf(),
        ensures
            final(self).wf(),
            ({
                let after = pushed(
                    old(self).enabled,
                    old(self).buffered@,
                    old(self).decoded as nat,
                    chunk@,
                );
                &&& output@ == after.out
                &&& final(self).holds(old(self).enabled, after.rest, after.decoded)
            }),
    {
        let mut output: Vec<u8> = Vec::new();
        if !self.enabled || self.decoded >= FIRST_PADDINGS {
            push_all(&mut output, chunk);
            assert(output@ =~= chunk@);
            assert(Seq::<u8>::empty() + chunk@ =~= chunk@);
            assert(self.buffered@ =~= Seq::<u8>::empty());
            return output;
        }
        push_all(&mut self.buffered, chunk);
        let ghost whole = self.buffered@;
        let ghost start = self.decoded as nat;
        assert(output@ + drained(whole, start).out =~= drained(whole, start).out);
        loop
            invariant
                self.enabled == old(self).enabled,
                self.enabled,
                self.decoded <= FIRST_PADDINGS,
                whole == old(self).buffered@ + chunk@,
                start == old(self).decoded,
                start < FIRST_PADDINGS,
                ({
                    let now = drained(self.buffered@, self.decoded as nat);
                    let all = drained(whole, start);
                    &&& output@ + now.out == all.out
                    &&& now.rest == all.rest
                    &&& now.decoded == all.decoded
                }),
            decreases FIRST_PADDINGS - self.decoded,
        {
            if self.decoded >= FIRST_PADDINGS {
                push_all(&mut output, self.buffered.as_slice());
                self.buffered = Vec::new();
                assert(self.buffered@ =~= Seq::<u8>::empty());
                return output;
            }
            if self.buffered.len() < 3 {
                assert(output@ + Seq::<u8>::empty() =~= output@);
                return output;
            }
            let payload: usize = read_be16(self.buffered.as_slice(), 0) as usize;
            let padding: usize = self.buffered[2] as usize;
            let frame: usize = 3 + payload + padding;
            if self.buffered.len() < frame {
                assert(output@ + Seq::<u8>::empty() =~= output@);
                return output;
            }
            let ghost before = self.buffered@;
            let ghost out = output@;
            let body = copy_range(self.buffered.as_slice(), 3, 3 + payload);
            let rest = copy_range(self.buffered.as_slice(), frame, self.buffered.len());
            assert(rest@ =~= before.skip(frame as int));
            push_all(&mut output, body.as_slice());
            self.buffered = rest;
            self.decoded = self.decoded + 1;
            proof {
                let now = drained(self.buffered@, self.decoded as nat);
                assert(out + (body@ + now.out) =~= output@ + now.out);
            }
        }
    }

    /// The tunnel ended: a padded frame must not be cut.
    pub fn finish(&self) -> (done: Result<(), StreamError>)
        ensures
            done is Err <==> self.enabled && self.decoded < FIRST_PADDINGS && self.buffered@.len()
                > 0,
            done matches Err(error) ==> error.says(
                StreamErrorKind::UnexpectedEof,
                "truncated Naive padding frame"@,
            ),
    {
        if self.enabled && self.decoded < FIRST_PADDINGS && self.buffered.len() != 0 {
            Err(StreamError::new(StreamErrorKind::UnexpectedEof, "truncated Naive padding frame"))
        } else {
            Ok(())
        }
    }
}

/// What a decoder does with a chunk.
pub open spec fn pushed(enabled: bool, buffered: Seq<u8>, decoded: nat, chunk: Seq<u8>) -> Drained {
    if enabled {
        drained(buffered + chunk, decoded)
    } else {
        Drained { out: chunk, rest: buffered, decoded }
    }
}

/// How a tunnel cuts the bytes makes no difference: two chunks give what both
/// at once do.
pub proof fn law_chunks(enabled: bool, buffered: Seq<u8>, decoded: nat, first: Seq<u8>, second: Seq<u8>)
    requires
        decoded >= FIRST_PADDINGS ==> buffered.len() == 0,
    ensures
        ({
            let one = pushed(enabled, buffered, decoded, first);
            let two = pushed(enabled, one.rest, one.decoded, second);
            let both = pushed(enabled, buffered, decoded, first + second);
            &&& one.out + two.out == both.out
            &&& two.rest == both.rest
            &&& two.decoded == both.decoded
        }),
{
    if enabled {
        lemma_drain_more(buffered + first, decoded, second);
        assert(buffered + first + second =~= buffered + (first + second));
    }
}

proof fn lemma_drain_more(bytes: Seq<u8>, decoded: nat, more: Seq<u8>)
    ensures
        ({
            let one = drained(bytes, decoded);
            let two = drained(one.rest + more, one.decoded);
            let both = drained(bytes + more, decoded);
            &&& one.out + two.out == both.out
            &&& two.rest == both.rest
            &&& two.decoded == both.decoded
        }),
    decreases FIRST_PADDINGS - decoded,
{
    let one = drained(bytes, decoded);
    if decoded >= FIRST_PADDINGS {
        assert(one.rest + more =~= more);
        assert(one.out + more =~= bytes + more);
    } else if bytes.len() < 3 {
        assert(one.out + drained(bytes + more, decoded).out =~= drained(bytes + more, decoded).out);
    } else {
        let payload = be16(bytes[0], bytes[1]) as int;
        let frame = 3 + payload + bytes[2];
        assert((bytes + more)[0] == bytes[0]);
        assert((bytes + more)[1] == bytes[1]);
        assert((bytes + more)[2] == bytes[2]);
        if bytes.len() < frame {
            assert(one.out + drained(bytes + more, decoded).out =~= drained(
                bytes + more,
                decoded,
            ).out);
        } else {
            lemma_drain_more(bytes.skip(frame), decoded + 1, more);
            assert((bytes + more).skip(frame) =~= bytes.skip(frame) + more);
            assert((bytes + more).subrange(3, 3 + payload) =~= bytes.subrange(3, 3 + payload));
            let next = drained(bytes.skip(frame), decoded + 1);
            let rest = drained(next.rest + more, next.decoded);
            assert(bytes.subrange(3, 3 + payload) + next.out + rest.out =~= bytes.subrange(
                3,
                3 + payload,
            ) + (next.out + rest.out));
        }
    }
}

/// The bytes sent for some payloads, of which `done` padded ones were sent
/// before.
pub open spec fn sent(payloads: Seq<Seq<u8>>, paddings: Seq<u8>, done: nat) -> Seq<u8>
    decreases payloads.len(),
{
    if payloads.len() == 0 {
        Seq::empty()
    } else {
        (if done < FIRST_PADDINGS {
            padded_frame(payloads[0], paddings[0])
        } else {
            payloads[0]
        }) + sent(payloads.skip(1), paddings.skip(1), if done < FIRST_PADDINGS {
            done + 1
        } else {
            done
        })
    }
}

/// The payloads one after the other.
pub open spec fn joined(payloads: Seq<Seq<u8>>) -> Seq<u8>
    decreases payloads.len(),
{
    if payloads.len() == 0 {
        Seq::empty()
    } else {
        payloads[0] + joined(payloads.skip(1))
    }
}

/// What one side sends the other gets, without the padding, and no frame stays
/// behind.
pub proof fn law_padding_round_trip(payloads: Seq<Seq<u8>>, paddings: Seq<u8>, done: nat)
    requires
        paddings.len() == payloads.len(),
        forall|i: int| 0 <= i < payloads.len() ==> (#[trigger] payloads[i]).len() <= 0xffff,
        done <= FIRST_PADDINGS,
    ensures
        drained(sent(payloads, paddings, done), done).out == joined(payloads),
        drained(sent(payloads, paddings, done), done).rest.len() == 0,
    decreases payloads.len(),
{
    if payloads.len() > 0 {
        let rest = payloads.skip(1);
        assert forall|i: int| 0 <= i < rest.len() implies (#[trigger] rest[i]).len() <= 0xffff by {
            assert(rest[i] == payloads[i + 1]);
        }
        let payload = payloads[0];
        if done < FIRST_PADDINGS {
            law_padding_round_trip(rest, paddings.skip(1), done + 1);
            let frame = padded_frame(payload, paddings[0]);
            let tail = sent(rest, paddings.skip(1), done + 1);
            let bytes = frame + tail;
            let size = payload.len() as u16;
            lemma_be16_round_trip(size);
            assert(bytes[0] == be16_bytes(size)[0] && bytes[1] == be16_bytes(size)[1]);
            assert(bytes[2] == paddings[0]);
            assert(bytes.subrange(3, 3 + payload.len() as int) =~= payload);
            assert(bytes.skip(frame.len() as int) =~= tail);
        } else {
            law_padding_round_trip(rest, paddings.skip(1), done);
        }
    } else {
        assert(drained(Seq::empty(), done).out =~= Seq::empty());
    }
}

/// The symbols of a padding header.
pub open spec fn padding_symbols() -> Seq<u8> {
    utf8("~!@#$%^&*()_+{}|:<>?`-=[]\\;',./"@)
}

/// A random padding header of between `minimum` and `maximum` symbols.
pub fn random_padding_header(minimum: usize, maximum: usize) -> (header: Vec<u8>)
    requires
        minimum <= maximum <= 0x7fff_ffff_ffff_ffff,
    ensures
        minimum <= header@.len() <= maximum,
        forall|i: int|
            0 <= i < header@.len() ==> padding_symbols().contains(#[trigger] header@[i]),
{
    let symbols = "~!@#$%^&*()_+{}|:<>?`-=[]\\;',./".as_bytes();
    proof {
        reveal_strlit("~!@#$%^&*()_+{}|:<>?`-=[]\\;',./");
        assert(symbols@ == padding_symbols());
        vstd::utf8::encode_utf8_first_scalar("~!@#$%^&*()_+{}|:<>?`-=[]\\;',./"@);
        assert(symbols@.len() > 0);
    }
    let length: usize = random_between(minimum as i64, maximum as i64) as usize;
    let count: usize = symbols.len();
    let mut header: Vec<u8> = Vec::new();
    for i in 0..length
        invariant
            symbols@ == padding_symbols(),
            count == symbols@.len(),
            0 < count,
            header@.len() == i,
            forall|j: int| 0 <= j < i ==> padding_symbols().contains(#[trigger] header@[j]),
    {
        let at: usize = random_below(count);
        header.push(symbols[at]);
        assert(padding_symbols()[at as int] == header@[i as int]);
    }
    header
}

/// A random index below `count`.
fn random_below(count: usize) -> (at: usize)
    requires
        count > 0,
    ensures
        at < count,
{
    let top: i64 = if count as u128 > 0x7fff_ffff_ffff_ffff {
        0x7fff_ffff_ffff_fffe
    } else {
        count as i64 - 1
    };
    random_between(0, top) as usize
}

/// The text of the error where a header name is not accepted.
pub uninterp spec fn header_name_error(name: Seq<char>) -> Option<Seq<char>>;

/// `http::HeaderName::try_from`: whether a name is accepted, and the text of
/// the error where it is not, are a function of the name. The name comes back
/// in lower case.
#[verifier::external_body]
fn check_header_name(name: &str) -> (checked: Result<String, String>)
    ensures
        checked is Ok <==> header_name_error(name@) is None,
        checked matches Ok(text) ==> text@ == lower(name@),
        checked matches Err(error) ==> header_name_error(name@) == Some(error@),
{
    match http::HeaderName::try_from(name) {
        Ok(name) => Ok(name.as_str().to_string()),
        Err(error) => Err(error.to_string()),
    }
}

/// The text of the error where a header value is not accepted.
pub uninterp spec fn header_value_error(value: Seq<char>) -> Option<Seq<char>>;

/// `http::HeaderValue::try_from`: whether a value is accepted, and the text of
/// the error where it is not, are a function of the value.
#[verifier::external_body]
fn check_header_value(value: &str) -> (checked: Result<(), String>)
    ensures
        checked is Ok <==> header_value_error(value@) is None,
        checked matches Err(error) ==> header_value_error(value@) == Some(error@),
{
    http::HeaderValue::try_from(value).map(|_| ()).map_err(|error| error.to_string())
}

/// Why one header is refused; `None` where it is not.
pub open spec fn header_fault(name: Seq<char>, value: Seq<char>) -> Option<Seq<char>> {
    match header_name_error(name) {
        Some(error) => Some("HTTP/2 header name: "@ + error),
        None => match header_value_error(value) {
            Some(error) => Some("HTTP/2 header value: "@ + error),
            None => None,
        },
    }
}

/// Name and value of each header.
pub open spec fn header_views(headers: Seq<(String, String)>) -> Seq<(Seq<char>, Seq<char>)> {
    headers.map_values(|header: (String, String)| (header.0@, header.1@))
}

/// The headers as they are sent, with their names in lower case.
pub open spec fn sent_headers(headers: Seq<(String, String)>) -> Seq<(Seq<char>, Seq<char>)> {
    headers.map_values(|header: (String, String)| (lower(header.0@), header.1@))
}

/// None of the first `count` headers is refused.
pub open spec fn accepted(headers: Seq<(String, String)>, count: int) -> bool {
    forall|i: int|
        0 <= i < count ==> header_fault((#[trigger] headers[i]).0@, headers[i].1@) is None
}

/// Appends the headers of a configuration, in order, up to the first that is
/// refused.
pub fn append_headers(
    headers: &mut Vec<(String, String)>,
    configured: &Vec<(String, String)>,
) -> (done: Result<(), TransportError>)
    ensures
        match done {
            Ok(()) => {
                &&& accepted(configured@, configured@.len() as int)
                &&& header_views(final(headers)@) == header_views(old(headers)@) + sent_headers(
                    configured@,
                )
            },
            Err(error) => exists|at: int|
                {
                    &&& 0 <= at < configured@.len()
                    &&& accepted(configured@, at)
                    &&& header_fault((#[trigger] configured@[at]).0@, configured@[at].1@) == Some(
                        error.message@,
                    )
                    &&& header_views(final(headers)@) == header_views(old(headers)@)
                        + sent_headers(configured@.take(at))
                },
        },
{
    assert(sent_headers(configured@.take(0)) =~= Seq::empty());
    for i in 0..configured.len()
        invariant
            accepted(configured@, i as int),
            header_views(headers@) =~= header_views(old(headers)@) + sent_headers(
                configured@.take(i as int),
            ),
    {
        let (name, value) = &configured[i];
        let ghost before = headers@;
        let name = match check_header_name(name.as_str()) {
            Ok(name) => name,
            Err(error) => {
                assert(header_fault(configured@[i as int].0@, configured@[i as int].1@) is Some);
                return Err(
                    TransportError { message: join("HTTP/2 header name: ", error.as_str()) },
                );
            },
        };
        match check_header_value(value.as_str()) {
            Ok(()) => {},
            Err(error) => {
                assert(header_fault(configured@[i as int].0@, configured@[i as int].1@) is Some);
                return Err(
                    TransportError { message: join("HTTP/2 header value: ", error.as_str()) },
                );
            },
        }
        headers.push((name, value.clone()));
        proof {
            let next = configured@.take(i as int + 1);
            assert(header_views(headers@) =~= header_views(before).push(
                (lower(configured@[i as int].0@), configured@[i as int].1@),
            ));
            assert(sent_headers(next) =~= sent_headers(configured@.take(i as int)).push(
                (lower(configured@[i as int].0@), configured@[i as int].1@),
            ));
        }
    }
    assert(configured@.take(configured@.len() as int) =~= configured@);
    Ok(())
}

/// What follows a tunnel that could not be opened.
#[derive(Clone, Copy, Debug, PartialEq, Eq)]
pub enum AfterFailure {
    /// The session is dropped and the tunnel tried on a new one.
    TryNewSession,
    /// The session is dropped and the failure reported.
    DropSession,
    /// The failure is reported.
    Report,
}

/// What follows a failure, the first or a later one.
pub open spec fn after_failure(first: bool, message: Seq<char>) -> AfterFailure {
    if !first {
        AfterFailure::Report
    } else if find(message, "HTTP/2"@) is Some {
        AfterFailure::TryNewSession
    } else {
        AfterFailure::DropSession
    }
}

/// The attempts at one tunnel: a second one is made where the first fails in
/// HTTP/2 itself.
pub struct TunnelAttempts {
    pub retry: bool,
}

impl TunnelAttempts {
    pub fn new() -> (attempts: TunnelAttempts)
        ensures
            attempts.retry,
    {
        TunnelAttempts { retry: true }
    }

    /// An attempt failed with a message.
    pub fn failed(&mut self, message: &str) -> (next: AfterFailure)
        ensures
            !final(self).retry,
            next == (if !old(self).retry {
                AfterFailure::Report
            } else if find(message@, "HTTP/2"@) is Some {
                AfterFailure::TryNewSession
            } else {
                AfterFailure::DropSession
            }),
            next == after_failure(old(self).retry, message@),
    {
        if !self.retry {
            return AfterFailure::Report;
        }
        self.retry = false;
        let text = chars_of(message);
        let mark = chars_of("HTTP/2");
        if find_chars(text.as_slice(), mark.as_slice()).is_some() {
            AfterFailure::TryNewSession
        } else {
            AfterFailure::DropSession
        }
    }
}

/// Whether the stream grants room for what is to be sent.
pub fn check_capacity(capacity: usize, wanted: usize) -> (done: Result<(), StreamError>)
    ensures
        done is Ok <==> capacity >= wanted,
        done matches Err(error) ==> error.says(
            StreamErrorKind::BrokenPipe,
            "HTTP/2 stream closed before providing send capacity"@,
        ),
{
    if capacity < wanted {
        Err(
            StreamError::new(
                StreamErrorKind::BrokenPipe,
                "HTTP/2 stream closed before providing send capacity",
            ),
        )
    } else {
        Ok(())
    }
}

/// Whether a tunnel that was opened is padded.
pub open spec fn tunnel_view(padded: Result<bool, TransportError>) -> Option<bool> {
    match padded {
        Ok(padded) => Some(padded),
        Err(_) => None,
    }
}

/// Whether a tunnel that an answer opens is padded; `None` where it opens none.
pub open spec fn tunnel_opened(status: u16, answered: bool, asked: bool) -> Option<bool> {
    if status == 200 {
        Some(asked && answered)
    } else {
        None
    }
}

/// What the proxy's answer means: whether the tunnel is padded, or why there is
/// none. `status_text` is the status as text.
pub fn open_tunnel(
    status: u16,
    status_text: &str,
    answer_has_padding: bool,
    options: &H2TunnelOptions,
) -> (padded: Result<bool, TransportError>)
    ensures
        match padded {
            Ok(padded) => status == 200 && padded == (options.negotiate_naive_padding
                && answer_has_padding),
            Err(error) => status != 200 && error.message@ == "HTTP/2 CONNECT returned "@
                + status_text@,
        },
        tunnel_view(padded) == tunnel_opened(
            status,
            answer_has_padding,
            options.negotiate_naive_padding,
        ),
{
    if status != 200 {
        return Err(TransportError { message: join("HTTP/2 CONNECT returned ", status_text) });
    }
    Ok(options.negotiate_naive_padding && answer_has_padding)
}

/// A padded frame: two bytes for the length of the payload, one for that of the
/// padding, the payload, and zeros. The first eight frames are padded.
pub proof fn law_padded_layout(payload: Seq<u8>, padding: u8)
    requires
        payload.len() <= 0xffff,
    ensures
        ({
            let frame = padded_frame(payload, padding);
            &&& frame.len() == 3 + payload.len() + padding
            &&& frame[0] * 256 + frame[1] == payload.len()
            &&& frame[2] == padding
            &&& frame.subrange(3, 3 + payload.len() as int) == payload
            &&& forall|i: int| 3 + payload.len() <= i < frame.len() ==> #[trigger] frame[i] == 0
        }),
        FIRST_PADDINGS == 8,
{
    let frame = padded_frame(payload, padding);
    assert(frame.subrange(3, 3 + payload.len() as int) =~= payload);
}

/// A frame that arrived whole gives its payload, its padding is passed over, and
/// what follows it is read on; one that breaks off is kept. After the first
/// eight, or without padding, everything is payload.
pub proof fn law_drained(payload: Seq<u8>, zeros: Seq<u8>, rest: Seq<u8>, decoded: nat)
    requires
        payload.len() <= 0xffff,
        zeros.len() <= 0xff,
    ensures
        ({
            let head = seq![
                (payload.len() / 256) as u8,
                (payload.len() % 256) as u8,
                zeros.len() as u8,
            ];
            let bytes = head + payload + zeros + rest;
            if decoded < 8 {
                let next = drained(rest, decoded + 1);
                drained(bytes, decoded) == (Drained { out: payload + next.out, ..next })
            } else {
                drained(bytes, decoded) == (Drained { out: bytes, rest: Seq::empty(), decoded })
            }
        }),
        decoded < 8 && rest.len() < 3 ==> drained(rest, decoded) == (Drained {
            out: Seq::empty(),
            rest,
            decoded,
        }),
        decoded < 8 && rest.len() >= 3 && rest.len() < 3 + rest[0] * 256 + rest[1] + rest[2]
            ==> drained(rest, decoded) == (Drained { out: Seq::empty(), rest, decoded }),
        pushed(false, Seq::empty(), decoded, rest).out == rest,
{
    let head = seq![
        (payload.len() / 256) as u8,
        (payload.len() % 256) as u8,
        zeros.len() as u8,
    ];
    let bytes = head + payload + zeros + rest;
    let frame = 3 + payload.len() + zeros.len();
    assert(bytes[0] == head[0] && bytes[1] == head[1] && bytes[2] == head[2]);
    assert(bytes.skip(frame as int) =~= rest);
    assert(bytes.subrange(3, 3 + payload.len() as int) =~= payload);
}

/// Headers are sent in their order, their names in lower case and their values
/// as they are; one is refused by its name before its value is looked at.
pub proof fn law_headers(headers: Seq<(String, String)>, at: int)
    requires
        0 <= at < headers.len(),
    ensures
        sent_headers(headers).len() == headers.len(),
        sent_headers(headers)[at].1 == headers[at].1@,
        sent_headers(headers)[at].0.len() == headers[at].0@.len(),
        forall|i: int|
            0 <= i < headers[at].0@.len() ==> #[trigger] sent_headers(headers)[at].0[i] == (if 'A'
                <= headers[at].0@[i] && headers[at].0@[i] <= 'Z' {
                (headers[at].0@[i] as u8 + 32) as u8 as char
            } else {
                headers[at].0@[i]
            }),
        header_fault(headers[at].0@, headers[at].1@) is None <==> header_name_error(headers[at].0@)
            is None && header_value_error(headers[at].1@) is None,
{
}

/// A tunnel is open where the proxy answers with 200 and no other status, and it
/// is padded only where both sides said so.
pub proof fn law_tunnel_opened(status: u16, answered: bool, asked: bool)
    ensures
        tunnel_opened(200, true, true) == Some(true),
        tunnel_opened(200, false, asked) == Some(false),
        tunnel_opened(200, answered, false) == Some(false),
        status != 200 ==> tunnel_opened(status, answered, asked) is None,
{
}

/// A tunnel is tried once more, on a new session, where the first attempt failed
/// in HTTP/2 itself; a second failure is always reported.
pub proof fn law_attempts(before: Seq<char>, after: Seq<char>, message: Seq<char>)
    ensures
        after_failure(true, before + "HTTP/2"@ + after) == AfterFailure::TryNewSession,
        after_failure(false, message) == AfterFailure::Report,
        after_failure(true, message) == AfterFailure::TryNewSession ==> exists|
            head: Seq<char>,
            tail: Seq<char>,
        |
            message == #[trigger] (head + "HTTP/2"@ + tail),
        after_failure(true, message) != AfterFailure::Report,
{
    crate::text::law_find(before + "HTTP/2"@ + after, "HTTP/2"@, before, after);
    crate::text::law_find(message, "HTTP/2"@, before, after);
    if let Some(at) = find(message, "HTTP/2"@) {
        let head = message.take(at);
        let tail = message.skip(at + "HTTP/2"@.len());
        assert(message == head + "HTTP/2"@ + tail);
    }
}

/// The symbols of a padding header are punctuation that HTTP/2 does not shorten.
pub proof fn law_padding_symbols()
    ensures
        padding_symbols() == utf8("~!@#$%^&*()_+{}|:<>?`-=[]\\;',./"@),
{
}

} // verus!
