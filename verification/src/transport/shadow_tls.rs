//! ShadowTLS v3 on the client's side: the signature in the ClientHello, the
//! server's proof within the handshake, and the tagged records after it.
use crate::crypto::{check_server_name, server_name_error, sha256, sha256_digest};
use crate::octets::{
    array32, be16, be16_bytes, copy_range, lemma_be16_round_trip, push_all, push_be16, read_be16,
    same_bytes,
};
use crate::text::{join, utf8};
use crate::transport::config::{TlsLayerConfig, TransportError};
use crate::types::{Endpoint, StreamError, StreamErrorKind};
use hmac::Mac;
use vstd::prelude::*;

verus! {

pub const TLS_HEADER: usize = 5;

pub const HMAC_SIZE: usize = 4;

pub const SHADOW_HEADER: usize = 9;

pub const APPLICATION_DATA: u8 = 0x17;

pub const HANDSHAKE: u8 = 0x16;

pub const SERVER_HELLO: u8 = 0x02;

/// Where a record with a ServerHello holds the server's random bytes.
pub const SERVER_RANDOM_INDEX: usize = 11;

/// Where a ClientHello holds its session identifier.
pub const SESSION_ID: usize = 39;

/// The longest TLS record, its header counted.
pub const LONGEST_RECORD: usize = 65540;

/// A running HMAC-SHA-1: a key and what was fed to it.
#[verifier::external_body]
pub struct ShadowHmac {
    state: hmac::Hmac<sha1::Sha1>,
}

/// The key of a running HMAC.
pub uninterp spec fn mac_key(mac: ShadowHmac) -> Seq<u8>;

/// What was fed to a running HMAC.
pub uninterp spec fn mac_fed(mac: ShadowHmac) -> Seq<u8>;

/// The HMAC-SHA-1 of some bytes under a key.
pub uninterp spec fn hmac_sha1_tag(key: Seq<u8>, bytes: Seq<u8>) -> Seq<u8>;

/// A running HMAC: its key and what was fed to it.
#[verifier::ext_equal]
pub struct MacModel {
    pub key: Seq<u8>,
    pub fed: Seq<u8>,
}

impl MacModel {
    /// The same HMAC, fed with more.
    pub open spec fn feed(self, bytes: Seq<u8>) -> MacModel {
        MacModel { key: self.key, fed: self.fed + bytes }
    }

    /// The first four bytes of the tag of all that was fed.
    pub open spec fn tag(self) -> Seq<u8> {
        let whole = hmac_sha1_tag(self.key, self.fed);
        seq![whole[0], whole[1], whole[2], whole[3]]
    }
}

impl ShadowHmac {
    pub open spec fn view(&self) -> MacModel {
        MacModel { key: mac_key(*self), fed: mac_fed(*self) }
    }
}

/// `hmac::Hmac<Sha1>::new_from_slice`: a running HMAC with a key, of any
/// length, and nothing fed.
#[verifier::external_body]
fn mac_new(key: &[u8]) -> (mac: ShadowHmac)
    ensures
        mac_key(mac) == key@,
        mac_fed(mac) == Seq::<u8>::empty(),
{
    let state = <hmac::Hmac<sha1::Sha1> as Mac>::new_from_slice(key).expect("any key length");
    ShadowHmac { state }
}

/// `hmac::Mac::update`: feeds more bytes.
#[verifier::external_body]
fn mac_update(mac: &mut ShadowHmac, bytes: &[u8])
    ensures
        mac_key(*final(mac)) == mac_key(*old(mac)),
        mac_fed(*final(mac)) == mac_fed(*old(mac)) + bytes@,
{
    mac.state.update(bytes);
}

/// `hmac::Mac::finalize`, on a copy: the tag is a function of the key and of
/// what was fed.
#[verifier::external_body]
fn mac_tag(mac: &ShadowHmac) -> (tag: [u8; 20])
    ensures
        tag@ == hmac_sha1_tag(mac_key(*mac), mac_fed(*mac)),
{
    mac.state.clone().finalize().into_bytes().into()
}

/// An HMAC keyed by a password and fed with two pieces.
pub open spec fn keyed(password: Seq<char>, data: Seq<u8>, suffix: Seq<u8>) -> MacModel {
    MacModel { key: utf8(password), fed: data + suffix }
}

impl ShadowHmac {
    /// An HMAC keyed by a password and fed with two pieces.
    pub fn new(password: &str, data: &[u8], suffix: &[u8]) -> (mac: ShadowHmac)
        ensures
            mac@ == (MacModel { key: utf8(password@), fed: data@ + suffix@ }),
            mac@ == keyed(password@, data@, suffix@),
    {
        let mut mac = mac_new(password.as_bytes());
        mac_update(&mut mac, data);
        mac_update(&mut mac, suffix);
        assert(mac@.fed =~= data@ + suffix@);
        mac
    }

    pub fn update(&mut self, value: &[u8])
        ensures
            final(self)@ == old(self)@.feed(value@),
    {
        mac_update(self, value);
    }

    /// The first four bytes of the tag.
    pub fn finalize4(&self) -> (tag: [u8; 4])
        ensures
            tag@ == self@.tag(),
    {
        let whole = mac_tag(self);
        let tag = [whole[0], whole[1], whole[2], whole[3]];
        assert(tag@ =~= self@.tag());
        tag
    }
}

/// What a ShadowTLS transport needs to know.
pub struct ShadowTlsTransport {
    pub server: Endpoint,
    pub password: String,
    pub tls: TlsLayerConfig,
}

/// Why a configuration is refused; `None` where it is not.
pub open spec fn config_fault(password: Seq<char>, tls: TlsLayerConfig) -> Option<Seq<char>> {
    if password.len() == 0 {
        Some("ShadowTLS v3 password must not be empty"@)
    } else if !tls.enabled {
        Some("ShadowTLS v3 requires TLS"@)
    } else if tls.reality is Some || tls.ech_config is Some {
        Some("ShadowTLS handshake does not support REALITY or ECH"@)
    } else {
        None
    }
}

impl ShadowTlsTransport {
    pub fn new(server: Endpoint, password: String, tls: TlsLayerConfig) -> (made: Result<
        ShadowTlsTransport,
        TransportError,
    >)
        ensures
            match config_fault(password@, tls) {
                None => made matches Ok(transport) && transport.server == server
                    && transport.password == password && transport.tls == tls,
                Some(message) => made matches Err(error) && error.message@ == message,
            },
    {
        if password.as_str().unicode_len() == 0 {
            return Err(TransportError::new("ShadowTLS v3 password must not be empty"));
        }
        if !tls.enabled {
            return Err(TransportError::new("ShadowTLS v3 requires TLS"));
        }
        if tls.reality.is_some() || tls.ech_config.is_some() {
            return Err(TransportError::new("ShadowTLS handshake does not support REALITY or ECH"));
        }
        Ok(ShadowTlsTransport { server, password, tls })
    }

    /// The name that the handshake asks for.
    pub fn server_name(&self) -> (name: Result<String, TransportError>)
        ensures
            match self.tls.server_name {
                None => name matches Err(error) && error.message@
                    == "ShadowTLS TLS server_name is required"@,
                Some(wanted) => match server_name_error(wanted@) {
                    None => name matches Ok(text) && text@ == wanted@,
                    Some(fault) => name matches Err(error) && error.message@
                        == "ShadowTLS server name: "@ + fault,
                },
            },
    {
        match &self.tls.server_name {
            None => Err(TransportError::new("ShadowTLS TLS server_name is required")),
            Some(name) => match check_server_name(name.as_str()) {
                Ok(()) => Ok(name.clone()),
                Err(fault) => Err(
                    TransportError { message: join("ShadowTLS server name: ", fault.as_str()) },
                ),
            },
        }
    }
}

/// Where the records hold a ClientHello that can be signed.
pub enum HelloPlace {
    /// The body of the record stands from the first place to the second.
    Found(int, int),
    /// A record before it is cut.
    Truncated,
    /// There is none.
    Absent,
}

/// Looks through the records from `at` on.
pub open spec fn hello_place(records: Seq<u8>, at: int) -> HelloPlace
    decreases records.len() - at,
{
    if at < 0 || at + TLS_HEADER > records.len() {
        HelloPlace::Absent
    } else {
        let start = at + TLS_HEADER;
        let end = start + be16(records[at + 3], records[at + 4]);
        if end > records.len() {
            HelloPlace::Truncated
        } else if records[at] == HANDSHAKE && end - start >= SESSION_ID + 32 && records[start]
            == 1 {
            HelloPlace::Found(start, end)
        } else {
            hello_place(records, end)
        }
    }
}

/// Bytes with some of them replaced.
pub open spec fn replaced(bytes: Seq<u8>, at: int, with: Seq<u8>) -> Seq<u8> {
    bytes.take(at) + with + bytes.skip(at + with.len())
}

/// A ClientHello whose session identifier ends in four zeros.
pub open spec fn unsigned_hello(body: Seq<u8>, random: Seq<u8>) -> Seq<u8> {
    replaced(body, SESSION_ID as int, random + seq![0u8, 0u8, 0u8, 0u8])
}

/// A ClientHello whose session identifier is random and ends in the tag of the
/// message.
pub open spec fn signed_hello(body: Seq<u8>, password: Seq<char>, random: Seq<u8>) -> Seq<u8> {
    let tag = MacModel { key: utf8(password), fed: unsigned_hello(body, random) }.tag();
    replaced(body, SESSION_ID as int, random + tag)
}

/// Overwrites bytes from `at` on.
fn replace(bytes: &mut Vec<u8>, at: usize, with: &[u8])
    requires
        at + with@.len() <= old(bytes)@.len(),
    ensures
        final(bytes)@ == replaced(old(bytes)@, at as int, with@),
{
    for i in 0..with.len()
        invariant
            at + with.len() <= bytes.len(),
            bytes.len() == old(bytes).len(),
            bytes@ =~= replaced(old(bytes)@, at as int, with@.take(i as int)),
    {
        let ghost before = bytes@;
        bytes[at + i] = with[i];
        assert(bytes@ =~= before.update(at + i, with@[i as int]));
        assert(with@.take(i + 1) =~= with@.take(i as int).push(with@[i as int]));
    }
    assert(with@.take(with@.len() as int) =~= with@);
}

/// Signs the first ClientHello among the records by a password, with `random`
/// as the rest of its session identifier.
pub fn sign_hello(records: &mut Vec<u8>, password: &str, random: &[u8; 28]) -> (done: Result<
    (),
    TransportError,
>)
    ensures
        match hello_place(old(records)@, 0) {
            HelloPlace::Found(start, end) => {
                let body = old(records)@.subrange(start, end);
                &&& done is Ok
                &&& final(records)@ == replaced(
                    old(records)@,
                    start,
                    signed_hello(body, password@, random@),
                )
            },
            HelloPlace::Truncated => {
                &&& done matches Err(error) && error.message@ == "truncated TLS ClientHello"@
                &&& final(records)@ == old(records)@
            },
            HelloPlace::Absent => done is Ok && final(records)@ == old(records)@,
        },
{
    let count: usize = records.len();
    let mut offset: usize = 0;
    while TLS_HEADER <= count && offset <= count - TLS_HEADER
        invariant
            count == records@.len(),
            offset <= count,
            records@ == old(records)@,
            hello_place(records@, offset as int) == hello_place(old(records)@, 0),
        decreases count - offset,
    {
        let length: usize = read_be16(records.as_slice(), offset + 3) as usize;
        let start: usize = offset + TLS_HEADER;
        if length > count - start {
            return Err(TransportError::new("truncated TLS ClientHello"));
        }
        let end: usize = start + length;
        if records[offset] == HANDSHAKE && length >= SESSION_ID + 32 && records[start] == 1 {
            let ghost body = records@.subrange(start as int, end as int);
            let ghost zeros = seq![0u8, 0u8, 0u8, 0u8];
            let mut session: Vec<u8> = Vec::new();
            push_all(&mut session, random);
            push_all(&mut session, &[0, 0, 0, 0]);
            assert(session@ =~= random@ + zeros);
            let mut message = copy_range(records.as_slice(), start, end);
            replace(&mut message, SESSION_ID, session.as_slice());
            let mut mac = ShadowHmac::new(password, &[], &[]);
            mac.update(message.as_slice());
            let tag = mac.finalize4();
            proof {
                assert(mac@.fed =~= unsigned_hello(body, random@));
            }
            let mut signed: Vec<u8> = Vec::new();
            push_all(&mut signed, random);
            push_all(&mut signed, &tag);
            assert(signed@ =~= random@ + tag@);
            replace(records, start + SESSION_ID, signed.as_slice());
            assert(records@ =~= replaced(
                old(records)@,
                start as int,
                signed_hello(body, password@, random@),
            ));
            return Ok(());
        }
        offset = end;
    }
    Ok(())
}

/// Signs the first ClientHello among the records by a password, with a random
/// session identifier.
pub fn sign_client_hello(records: &mut Vec<u8>, password: &str) -> (done: Result<
    (),
    TransportError,
>)
    ensures
        match hello_place(old(records)@, 0) {
            HelloPlace::Found(start, end) => {
                let body = old(records)@.subrange(start, end);
                &&& done is Ok
                &&& exists|random: [u8; 28]|
                    final(records)@ == replaced(
                        old(records)@,
                        start,
                        #[trigger] signed_hello(body, password@, random@),
                    )
            },
            HelloPlace::Truncated => {
                &&& done matches Err(error) && error.message@ == "truncated TLS ClientHello"@
                &&& final(records)@ == old(records)@
            },
            HelloPlace::Absent => done is Ok && final(records)@ == old(records)@,
        },
{
    let random = crate::crypto::random_bytes::<28>();
    sign_hello(records, password, &random)
}

/// A server that knows the password can check a signature: with the last four
/// bytes of the session identifier set to zero, the message has them as its tag.
pub proof fn law_hello_signature(body: Seq<u8>, password: Seq<char>, random: Seq<u8>)
    requires
        body.len() >= SESSION_ID + 32,
        random.len() == 28,
    ensures
        ({
            let signed = signed_hello(body, password, random);
            let tag = signed.subrange(SESSION_ID + 28, SESSION_ID + 32);
            let cleared = replaced(signed, SESSION_ID + 28, seq![0u8, 0u8, 0u8, 0u8]);
            tag == (MacModel { key: utf8(password), fed: cleared }).tag()
        }),
{
    let signed = signed_hello(body, password, random);
    let zeros = seq![0u8, 0u8, 0u8, 0u8];
    let tag = MacModel { key: utf8(password), fed: unsigned_hello(body, random) }.tag();
    assert(signed.subrange(SESSION_ID + 28, SESSION_ID + 32) =~= tag);
    assert(replaced(signed, SESSION_ID + 28, zeros) =~= unsigned_hello(body, random));
}

/// What a client learned of the server during the handshake.
pub struct Handshake {
    pub server_random: Option<[u8; 32]>,
    pub handshake_hmac: Option<ShadowHmac>,
    pub authorized: bool,
}

/// The same over plain values.
#[verifier::ext_equal]
pub struct HandshakeModel {
    pub server_random: Option<Seq<u8>>,
    pub handshake_hmac: Option<MacModel>,
    pub authorized: bool,
}

/// What an optional running HMAC is.
pub open spec fn mac_view(mac: Option<ShadowHmac>) -> Option<MacModel> {
    match mac {
        Some(mac) => Some(mac@),
        None => None,
    }
}

impl Handshake {
    pub open spec fn view(&self) -> HandshakeModel {
        HandshakeModel {
            server_random: match self.server_random {
                Some(random) => Some(random@),
                None => None,
            },
            handshake_hmac: mac_view(self.handshake_hmac),
            authorized: self.authorized,
        }
    }

    /// A running HMAC comes with the server's random bytes.
    pub open spec fn wf(self) -> bool {
        self.handshake_hmac is Some ==> self.server_random is Some
    }
}

/// Bytes combined with a repeated key.
pub open spec fn masked(bytes: Seq<u8>, key: Seq<u8>) -> Seq<u8> {
    Seq::new(bytes.len(), |i: int| bytes[i] ^ key[i % 32])
}

/// The record that the server wrapped: without its tag, its body unmasked.
pub open spec fn unwrapped(record: Seq<u8>, password: Seq<char>, random: Seq<u8>) -> Seq<u8> {
    let body = masked(
        record.skip(SHADOW_HEADER as int),
        sha256_digest(utf8(password) + random),
    );
    record.take(3) + be16_bytes(body.len() as u16) + body
}

/// Whether a record is a ServerHello with its random bytes.
pub open spec fn is_server_hello(record: Seq<u8>) -> bool {
    record[0] == HANDSHAKE && record.len() >= SERVER_RANDOM_INDEX + 32 && record[TLS_HEADER as int]
        == SERVER_HELLO
}

/// Whether a record could carry a tag.
pub open spec fn is_tagged(record: Seq<u8>) -> bool {
    record[0] == APPLICATION_DATA && record.len() >= SHADOW_HEADER
}

/// The tag of a record that carries one.
pub open spec fn record_tag(record: Seq<u8>) -> Seq<u8> {
    record.subrange(TLS_HEADER as int, SHADOW_HEADER as int)
}

/// What a record of the handshake becomes, and what is learned from it.
pub open spec fn inspected(
    record: Seq<u8>,
    password: Seq<char>,
    seen: HandshakeModel,
) -> (Seq<u8>, HandshakeModel) {
    if is_server_hello(record) {
        let random = record.subrange(SERVER_RANDOM_INDEX as int, SERVER_RANDOM_INDEX + 32);
        (
            record,
            HandshakeModel {
                server_random: Some(random),
                handshake_hmac: Some(MacModel { key: utf8(password), fed: random }),
                ..seen
            },
        )
    } else if is_tagged(record) && seen.handshake_hmac is Some {
        let mac = seen.handshake_hmac->Some_0.feed(record.skip(SHADOW_HEADER as int));
        let fed = HandshakeModel { handshake_hmac: Some(mac), ..seen };
        if record_tag(record) == mac.tag() {
            (
                unwrapped(record, password, seen.server_random->Some_0),
                HandshakeModel { authorized: true, ..fed },
            )
        } else {
            (record, fed)
        }
    } else {
        (record, seen)
    }
}

impl Handshake {
    pub fn new() -> (handshake: Handshake)
        ensures
            handshake@ == (HandshakeModel {
                server_random: None,
                handshake_hmac: None,
                authorized: false,
            }),
            handshake.wf(),
    {
        Handshake { server_random: None, handshake_hmac: None, authorized: false }
    }

    /// Looks at a record of the server before TLS gets it.
    pub fn inspect_server_record(&mut self, record: &mut Vec<u8>, password: &str)
        requires
            old(self).wf(),
            1 <= old(record)@.len() <= LONGEST_RECORD,
        ensures
            final(self).wf(),
            (final(record)@, final(self)@) == inspected(old(record)@, password@, old(self)@),
    {
        let ghost seen = self@;
        let ghost whole = record@;
        if record[0] == HANDSHAKE && record.len() >= SERVER_RANDOM_INDEX + 32 && record[TLS_HEADER]
            == SERVER_HELLO {
            let random = array32(record.as_slice(), SERVER_RANDOM_INDEX);
            self.server_random = Some(random);
            let mac = ShadowHmac::new(password, &random, &[]);
            assert(mac@.fed =~= random@);
            self.handshake_hmac = Some(mac);
            assert(self@ =~= inspected(whole, password@, seen).1);
            return;
        }
        if record[0] != APPLICATION_DATA || record.len() < SHADOW_HEADER {
            return;
        }
        match self.handshake_hmac.take() {
            None => {
                assert(self@ =~= seen);
            },
            Some(mac) => {
                let mut mac = mac;
                let body = copy_range(record.as_slice(), SHADOW_HEADER, record.len());
                assert(body@ =~= whole.skip(SHADOW_HEADER as int));
                mac.update(body.as_slice());
                let tag = copy_range(record.as_slice(), TLS_HEADER, SHADOW_HEADER);
                let expected = mac.finalize4();
                self.handshake_hmac = Some(mac);
                if same_bytes(tag.as_slice(), &expected) {
                    if let Some(random) = self.server_random {
                        *record = unwrap_record(record.as_slice(), password, &random);
                    }
                    self.authorized = true;
                }
                assert(self@ =~= inspected(whole, password@, seen).1);
            },
        }
    }

    /// The TLS handshake is over: what the records after it need.
    pub fn finish(self, is_tls13: bool) -> (done: Result<([u8; 32], ShadowHmac), TransportError>)
        ensures
            match finish_fault(self@, is_tls13) {
                None => done matches Ok(pair) && Some(pair.0@) == self@.server_random && Some(
                    pair.1@,
                ) == self@.handshake_hmac,
                Some(message) => done matches Err(error) && error.message@ == message,
            },
    {
        if !is_tls13 {
            return Err(TransportError::new("ShadowTLS v3 strict mode requires TLS 1.3"));
        }
        if !self.authorized {
            return Err(
                TransportError::new("ShadowTLS server did not authenticate the TLS handshake"),
            );
        }
        match self.server_random {
            None => Err(TransportError::new("ShadowTLS ServerRandom missing")),
            Some(random) => match self.handshake_hmac {
                None => Err(TransportError::new("ShadowTLS handshake HMAC missing")),
                Some(mac) => Ok((random, mac)),
            },
        }
    }
}

/// Why a handshake is refused at its end; `None` where it is not.
pub open spec fn finish_fault(seen: HandshakeModel, is_tls13: bool) -> Option<Seq<char>> {
    if !is_tls13 {
        Some("ShadowTLS v3 strict mode requires TLS 1.3"@)
    } else if !seen.authorized {
        Some("ShadowTLS server did not authenticate the TLS handshake"@)
    } else if seen.server_random is None {
        Some("ShadowTLS ServerRandom missing"@)
    } else if seen.handshake_hmac is None {
        Some("ShadowTLS handshake HMAC missing"@)
    } else {
        None
    }
}

/// What the client does next while TLS shakes hands.
#[derive(Clone, Copy, Debug, PartialEq, Eq)]
pub enum HandshakeStep {
    /// Send what TLS has to send, with the ClientHello signed.
    WriteSigned,
    /// Read a record and inspect it.
    Read,
    /// Ask TLS again.
    Again,
    /// Send what TLS has to send after the handshake.
    WriteLast,
    /// Look at what was learned.
    Finish,
}

/// The next step by the state of TLS.
pub open spec fn next_step(
    is_handshaking: bool,
    wants_write: bool,
    wants_read: bool,
) -> HandshakeStep {
    match (is_handshaking, wants_write, wants_read) {
        (true, true, _) => HandshakeStep::WriteSigned,
        (true, false, true) => HandshakeStep::Read,
        (true, false, false) => HandshakeStep::Again,
        (false, true, _) => HandshakeStep::WriteLast,
        (false, false, _) => HandshakeStep::Finish,
    }
}

/// Picks the next step by the state of TLS.
pub fn handshake_step(is_handshaking: bool, wants_write: bool, wants_read: bool) -> (step:
    HandshakeStep)
    ensures
        step == (if is_handshaking && wants_write {
            HandshakeStep::WriteSigned
        } else if is_handshaking && wants_read {
            HandshakeStep::Read
        } else if is_handshaking {
            HandshakeStep::Again
        } else if wants_write {
            HandshakeStep::WriteLast
        } else {
            HandshakeStep::Finish
        }),
        step == next_step(is_handshaking, wants_write, wants_read),
{
    if is_handshaking {
        if wants_write {
            HandshakeStep::WriteSigned
        } else if wants_read {
            HandshakeStep::Read
        } else {
            HandshakeStep::Again
        }
    } else if wants_write {
        HandshakeStep::WriteLast
    } else {
        HandshakeStep::Finish
    }
}

fn unwrap_record(record: &[u8], password: &str, random: &[u8; 32]) -> (out: Vec<u8>)
    requires
        SHADOW_HEADER <= record@.len() <= LONGEST_RECORD,
    ensures
        out@ == unwrapped(record@, password@, random@),
{
    let mut secret: Vec<u8> = Vec::new();
    push_all(&mut secret, password.as_bytes());
    push_all(&mut secret, random);
    assert(secret@ =~= utf8(password@) + random@);
    let key = sha256(secret.as_slice());
    let length: usize = record.len() - SHADOW_HEADER;
    let mut out: Vec<u8> = copy_range(record, 0, 3);
    push_be16(&mut out, length as u16);
    let ghost head = out@;
    let ghost body = record@.skip(SHADOW_HEADER as int);
    for i in 0..length
        invariant
            length == record.len() - SHADOW_HEADER,
            body == record@.skip(SHADOW_HEADER as int),
            out@ =~= head + masked(body, key@).take(i as int),
    {
        out.push(record[SHADOW_HEADER + i] ^ key[i % 32]);
    }
    assert(masked(body, key@).take(length as int) =~= masked(body, key@));
    assert(out@ =~= unwrapped(record@, password@, random@));
    out
}

/// The length of the record that begins with a header.
pub fn record_length(header: &[u8; 5]) -> (length: usize)
    ensures
        length == TLS_HEADER + be16(header[3], header[4]),
        length <= LONGEST_RECORD,
{
    TLS_HEADER + read_be16(header, 3) as usize
}

/// A record that carries a payload under a running HMAC.
pub open spec fn upload_record(mac: MacModel, payload: Seq<u8>) -> Seq<u8> {
    seq![APPLICATION_DATA, 3u8, 3u8] + be16_bytes((payload.len() + HMAC_SIZE) as u16) + mac.feed(
        payload,
    ).tag() + payload
}

/// A running HMAC after a record: the payload was fed, then its tag.
pub open spec fn chained(mac: MacModel, payload: Seq<u8>) -> MacModel {
    mac.feed(payload).feed(mac.feed(payload).tag())
}

/// Wraps a payload for the server.
pub fn upload(mac: &mut ShadowHmac, payload: &[u8]) -> (record: Vec<u8>)
    requires
        payload@.len() + HMAC_SIZE <= 0xffff,
    ensures
        record@ == upload_record(old(mac)@, payload@),
        final(mac)@ == chained(old(mac)@, payload@),
{
    mac.update(payload);
    let signature = mac.finalize4();
    mac.update(&signature);
    let mut record: Vec<u8> = Vec::new();
    push_all(&mut record, &[APPLICATION_DATA, 3, 3]);
    push_be16(&mut record, (payload.len() + HMAC_SIZE) as u16);
    push_all(&mut record, &signature);
    push_all(&mut record, payload);
    assert(record@ =~= upload_record(old(mac)@, payload@));
    record
}

/// What a record of the server means once the handshake is over.
#[verifier::ext_equal]
pub enum DownloadModel {
    /// A payload.
    Payload(Seq<u8>),
    /// A last record of the handshake, to be passed over.
    Leftover,
    /// The record ends the connection.
    Refused(Seq<char>),
}

/// What a record means and what the two running HMACs become.
pub open spec fn downloaded(
    record: Seq<u8>,
    inbound: MacModel,
    handshake: Option<MacModel>,
) -> (DownloadModel, MacModel, Option<MacModel>) {
    if !is_tagged(record) {
        (DownloadModel::Refused("unexpected ShadowTLS record"@), inbound, handshake)
    } else {
        let payload = record.skip(SHADOW_HEADER as int);
        if handshake is Some && record_tag(record) == handshake->Some_0.feed(payload).tag() {
            (DownloadModel::Leftover, inbound, Some(handshake->Some_0.feed(payload)))
        } else if record_tag(record) == inbound.feed(payload).tag() {
            (DownloadModel::Payload(payload), chained(inbound, payload), None)
        } else {
            (DownloadModel::Refused("ShadowTLS HMAC mismatch"@), inbound.feed(payload), None)
        }
    }
}

/// Unwraps a record of the server: a payload, or nothing where the record still
/// belongs to the handshake.
pub fn download(
    record: &[u8],
    inbound: &mut ShadowHmac,
    handshake: &mut Option<ShadowHmac>,
) -> (payload: Result<Option<Vec<u8>>, StreamError>)
    requires
        record@.len() >= 1,
    ensures
        ({
            let (means, inbound_after, handshake_after) = downloaded(
                record@,
                old(inbound)@,
                mac_view(*old(handshake)),
            );
            &&& final(inbound)@ == inbound_after
            &&& mac_view(*final(handshake)) == handshake_after
            &&& match means {
                DownloadModel::Payload(bytes) => payload matches Ok(Some(out)) && out@ == bytes,
                DownloadModel::Leftover => payload matches Ok(None),
                DownloadModel::Refused(message) => payload matches Err(error) && error.says(
                    StreamErrorKind::InvalidData,
                    message,
                ),
            }
        }),
{
    if record[0] != APPLICATION_DATA || record.len() < SHADOW_HEADER {
        return Err(StreamError::new(StreamErrorKind::InvalidData, "unexpected ShadowTLS record"));
    }
    let payload = copy_range(record, SHADOW_HEADER, record.len());
    assert(payload@ =~= record@.skip(SHADOW_HEADER as int));
    let tag = copy_range(record, TLS_HEADER, SHADOW_HEADER);
    assert(tag@ == record_tag(record@));
    match handshake.take() {
        None => {},
        Some(ignore) => {
            let mut ignore = ignore;
            ignore.update(payload.as_slice());
            let expected = ignore.finalize4();
            if same_bytes(tag.as_slice(), &expected) {
                *handshake = Some(ignore);
                return Ok(None);
            }
        },
    }
    inbound.update(payload.as_slice());
    let expected = inbound.finalize4();
    if !same_bytes(tag.as_slice(), &expected) {
        return Err(StreamError::new(StreamErrorKind::InvalidData, "ShadowTLS HMAC mismatch"));
    }
    inbound.update(&expected);
    Ok(Some(payload))
}

/// What one side wraps the other unwraps, and both are left with the same
/// running HMAC.
pub proof fn law_record_round_trip(mac: MacModel, payload: Seq<u8>)
    requires
        payload.len() + HMAC_SIZE <= 0xffff,
    ensures
        downloaded(upload_record(mac, payload), mac, None) == (
            DownloadModel::Payload(payload),
            chained(mac, payload),
            None::<MacModel>,
        ),
{
    let record = upload_record(mac, payload);
    let tag = mac.feed(payload).tag();
    assert(tag.len() == 4);
    assert(record.skip(SHADOW_HEADER as int) =~= payload);
    assert(record_tag(record) =~= tag);
}

/// A record's length field counts what follows its header.
pub proof fn law_record_length(mac: MacModel, payload: Seq<u8>)
    requires
        payload.len() + HMAC_SIZE <= 0xffff,
    ensures
        ({
            let record = upload_record(mac, payload);
            record.len() == TLS_HEADER + be16(record[3], record[4])
        }),
{
    let size = (payload.len() + HMAC_SIZE) as u16;
    lemma_be16_round_trip(size);
    let record = upload_record(mac, payload);
    assert(record[3] == be16_bytes(size)[0]);
    assert(record[4] == be16_bytes(size)[1]);
}

/// Bytes as a server masks them: each combined with one of the thirty-two of
/// the key, over and over.
pub open spec fn server_masked(bytes: Seq<u8>, password: Seq<char>, random: Seq<u8>) -> Seq<u8> {
    Seq::new(bytes.len(), |i: int| bytes[i] ^ sha256_digest(utf8(password) + random)[i % 32])
}

/// A TLS record as a server wraps it that fed some bytes to its HMAC before: its
/// body masked, in front of that four bytes of the HMAC-SHA-1 of all that was fed
/// and of the masked body, and its length counting them.
pub open spec fn server_wrapped(
    record: Seq<u8>,
    password: Seq<char>,
    random: Seq<u8>,
    fed: Seq<u8>,
) -> Seq<u8> {
    let body = server_masked(record.skip(5), password, random);
    let tag = hmac_sha1_tag(utf8(password), fed + body);
    record.take(3) + seq![((body.len() + 4) / 256) as u8, ((body.len() + 4) % 256) as u8] + seq![
        tag[0],
        tag[1],
        tag[2],
        tag[3],
    ] + body
}

/// A client that saw the server's random bytes gets back the TLS record that a
/// server with the same password wrapped, knows the server for it, and has fed
/// its HMAC as the server did.
pub proof fn law_wrapped_record(
    record: Seq<u8>,
    password: Seq<char>,
    random: Seq<u8>,
    fed: Seq<u8>,
    seen: HandshakeModel,
)
    requires
        record.len() >= 5,
        record.len() <= 65536,
        record[0] == 0x17,
        record[3] as int * 256 + record[4] as int == record.len() - 5,
        seen.server_random == Some(random),
        seen.handshake_hmac == Some(MacModel { key: utf8(password), fed }),
    ensures
        ({
            let (given, learned) = inspected(
                server_wrapped(record, password, random, fed),
                password,
                seen,
            );
            &&& given == record
            &&& learned.authorized
            &&& learned.server_random == Some(random)
            &&& learned.handshake_hmac == Some(
                MacModel {
                    key: utf8(password),
                    fed: fed + server_masked(record.skip(5), password, random),
                },
            )
        }),
{
    let body = server_masked(record.skip(5), password, random);
    let wrapped = server_wrapped(record, password, random, fed);
    let whole = hmac_sha1_tag(utf8(password), fed + body);
    assert(wrapped[0] == record[0]);
    assert(wrapped.skip(9) =~= body);
    assert(wrapped.subrange(5, 9) =~= seq![whole[0], whole[1], whole[2], whole[3]]);
    let key = sha256_digest(utf8(password) + random);
    assert forall|i: int| 0 <= i < body.len() implies masked(body, key)[i] == record.skip(5)[i] by {
        let plain = record.skip(5)[i];
        let mask = key[i % 32];
        assert((plain ^ mask) ^ mask == plain) by (bit_vector);
    }
    assert(masked(body, key) =~= record.skip(5));
    assert(wrapped.take(3) =~= record.take(3));
    let length = body.len() as u16;
    assert(be16_bytes(length) =~= seq![record[3], record[4]]);
    assert(unwrapped(wrapped, password, random) =~= record);
}

/// A record whose tag is not that of the password goes to TLS as it came and
/// proves nothing; so does one that can carry no tag, and one that comes before
/// the server's random bytes.
pub proof fn law_other_record(record: Seq<u8>, password: Seq<char>, seen: HandshakeModel)
    requires
        record.len() > 0,
        record[0] != 0x17 || record.len() < 9 || match seen.handshake_hmac {
            None => true,
            Some(mac) => {
                let tag = hmac_sha1_tag(mac.key, mac.fed + record.skip(9));
                record.subrange(5, 9) != seq![tag[0], tag[1], tag[2], tag[3]]
            },
        },
    ensures
        inspected(record, password, seen).0 == record,
        inspected(record, password, seen).1.authorized == seen.authorized,
{
}

/// From a ServerHello the client learns the server's random bytes, which are the
/// first that its HMAC under the password is fed with; nothing is proved by it.
pub proof fn law_server_hello(record: Seq<u8>, password: Seq<char>, seen: HandshakeModel)
    requires
        record.len() >= 43,
        record[0] == 0x16,
        record[5] == 2,
    ensures
        inspected(record, password, seen) == (
            record,
            HandshakeModel {
                server_random: Some(record.subrange(11, 43)),
                handshake_hmac: Some(
                    MacModel { key: utf8(password), fed: record.subrange(11, 43) },
                ),
                authorized: seen.authorized,
            },
        ),
{
}

/// A handshake counts only where it was of TLS 1.3, the server proved that it
/// knows the password, and its random bytes are known.
pub proof fn law_finished(seen: HandshakeModel, is_tls13: bool)
    ensures
        finish_fault(seen, is_tls13) is None <==> is_tls13 && seen.authorized
            && seen.server_random is Some && seen.handshake_hmac is Some,
{
}

/// A record that carries a payload to the server: of the type of application
/// data, of version 3.3, with the length of what follows, four bytes of the
/// HMAC-SHA-1 of all that was fed before and of the payload, and the payload.
/// After it the HMAC is fed with the payload and with those four bytes.
pub proof fn law_uploaded(mac: MacModel, payload: Seq<u8>)
    requires
        payload.len() + 4 <= 65535,
    ensures
        ({
            let record = upload_record(mac, payload);
            let tag = hmac_sha1_tag(mac.key, mac.fed + payload);
            let four = seq![tag[0], tag[1], tag[2], tag[3]];
            &&& record.len() == payload.len() + 9
            &&& record[0] == 0x17
            &&& record[1] == 3
            &&& record[2] == 3
            &&& record[3] as int * 256 + record[4] as int == payload.len() + 4
            &&& record.subrange(5, 9) == four
            &&& record.skip(9) == payload
            &&& chained(mac, payload).key == mac.key
            &&& chained(mac, payload).fed == mac.fed + payload + four
        }),
{
    let record = upload_record(mac, payload);
    let tag = hmac_sha1_tag(mac.key, mac.fed + payload);
    assert(record.subrange(5, 9) =~= seq![tag[0], tag[1], tag[2], tag[3]]);
    assert(record.skip(9) =~= payload);
    assert(record[3] == be16_bytes((payload.len() + 4) as u16)[0]);
    assert(record[4] == be16_bytes((payload.len() + 4) as u16)[1]);
}

/// What a record means after the handshake. Only one of application data with
/// room for a tag is taken. Where its tag is that of the handshake's HMAC, which
/// counts until the first payload, it is passed over; where it is that of the
/// running HMAC, it gives its payload; else it ends the connection.
pub proof fn law_downloaded(
    record: Seq<u8>,
    inbound: MacModel,
    handshake: Option<MacModel>,
)
    requires
        record.len() > 0,
    ensures
        ({
            let (meaning, next, left) = downloaded(record, inbound, handshake);
            let payload = record.skip(9);
            let four = |mac: MacModel|
                {
                    let tag = hmac_sha1_tag(mac.key, mac.fed + payload);
                    seq![tag[0], tag[1], tag[2], tag[3]]
                };
            let of_handshake = handshake is Some && record.subrange(5, 9) == four(handshake->0);
            if record[0] != 0x17 || record.len() < 9 {
                meaning is Refused
            } else if of_handshake {
                &&& meaning is Leftover
                &&& next == inbound
                &&& left is Some
                &&& left->0.key == handshake->0.key
                &&& left->0.fed == handshake->0.fed + payload
            } else if record.subrange(5, 9) == four(inbound) {
                &&& meaning == DownloadModel::Payload(payload)
                &&& next.key == inbound.key
                &&& next.fed == inbound.fed + payload + four(inbound)
                &&& left is None
            } else {
                meaning is Refused
            }
        }),
{
}

/// A ClientHello that stands alone in its record is found and signed: of its
/// session identifier the first twenty-eight bytes become the random ones and
/// the last four become those of the HMAC-SHA-1, under the password, of the
/// message in which they are zero. Nothing else changes.
pub proof fn law_hello_signed(records: Seq<u8>, password: Seq<char>, random: Seq<u8>)
    requires
        records.len() >= 76,
        records[0] == 0x16,
        records[5] == 1,
        5 + records[3] as int * 256 + records[4] as int <= records.len(),
        records[3] as int * 256 + records[4] as int >= 71,
        random.len() == 28,
    ensures
        ({
            let end = 5 + records[3] as int * 256 + records[4] as int;
            let body = records.subrange(5, end);
            let signed = signed_hello(body, password, random);
            let zeroed = body.take(39) + random + seq![0u8, 0u8, 0u8, 0u8] + body.skip(71);
            let tag = hmac_sha1_tag(utf8(password), zeroed);
            &&& hello_place(records, 0) == HelloPlace::Found(5, end)
            &&& signed == body.take(39) + random + seq![tag[0], tag[1], tag[2], tag[3]]
                + body.skip(71)
            &&& replaced(records, 5, signed).take(5) == records.take(5)
            &&& replaced(records, 5, signed).subrange(5, end) == signed
            &&& replaced(records, 5, signed).skip(end) == records.skip(end)
        }),
{
    let end = 5 + records[3] as int * 256 + records[4] as int;
    let body = records.subrange(5, end);
    let signed = signed_hello(body, password, random);
    let zeros = seq![0u8, 0u8, 0u8, 0u8];
    let zeroed = body.take(39) + random + zeros + body.skip(71);
    assert(unsigned_hello(body, random) =~= zeroed);
    let tag = hmac_sha1_tag(utf8(password), zeroed);
    assert(signed =~= body.take(39) + random + seq![tag[0], tag[1], tag[2], tag[3]] + body.skip(71));
    let out = replaced(records, 5, signed);
    assert(out.take(5) =~= records.take(5));
    assert(out.subrange(5, end) =~= signed);
    assert(out.skip(end) =~= records.skip(end));
}

/// Records before a ClientHello that are of another kind are passed over; one
/// that is cut ends the search.
pub proof fn law_hello_search(records: Seq<u8>, at: int)
    requires
        0 <= at,
        at + 5 <= records.len(),
    ensures
        ({
            let end = at + 5 + records[at + 3] as int * 256 + records[at + 4] as int;
            &&& end > records.len() ==> hello_place(records, at) is Truncated
            &&& end <= records.len() && (records[at] != 0x16 || end - at - 5 < 71 || records[at + 5]
                != 1) ==> hello_place(records, at) == hello_place(records, end)
        }),
        forall|place: int|
            place + 5 > records.len() ==> #[trigger] hello_place(records, place) is Absent,
{
}

/// The HMAC of a direction is keyed by the password alone and is fed with the
/// server's random bytes first and with the letter of the direction after them.
pub proof fn law_keyed(password: Seq<char>, random: Seq<u8>, letter: u8)
    ensures
        ({
            let mac = keyed(password, random, seq![letter]);
            &&& mac.key == utf8(password)
            &&& mac.fed.len() == random.len() + 1
            &&& mac.fed.take(random.len() as int) == random
            &&& mac.fed.last() == letter
        }),
{
    assert(keyed(password, random, seq![letter]).fed.take(random.len() as int) =~= random);
}

/// A configuration is accepted where it has a password and TLS that is neither
/// REALITY nor hides its name.
pub proof fn law_config_accepted(password: Seq<char>, tls: TlsLayerConfig)
    ensures
        config_fault(password, tls) is None <==> password.len() > 0 && tls.enabled && tls.reality
            is None && tls.ech_config is None,
{
}

/// While TLS shakes hands, what it has to send goes first, with the ClientHello
/// signed, and then what it waits for is read; the handshake is looked at only
/// once it is over and nothing is left to send.
pub proof fn law_next_step(shaking: bool, wants_write: bool, wants_read: bool)
    ensures
        next_step(shaking, wants_write, wants_read) == HandshakeStep::WriteSigned <==> shaking
            && wants_write,
        next_step(shaking, wants_write, wants_read) == HandshakeStep::Read <==> shaking
            && !wants_write && wants_read,
        next_step(shaking, wants_write, wants_read) == HandshakeStep::Again <==> shaking
            && !wants_write && !wants_read,
        next_step(shaking, wants_write, wants_read) == HandshakeStep::WriteLast <==> !shaking
            && wants_write,
        next_step(shaking, wants_write, wants_read) == HandshakeStep::Finish <==> !shaking
            && !wants_write,
{
}

} // verus!
