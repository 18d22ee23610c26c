//! The request header: what it says, and how it is sealed.
use crate::address::{host_bytes, push_host, Tags};
use crate::crypto::{
    aes128_block, aes128_encrypt_block, aes128_gcm_seal, aes128_gcm_sealed, crc32, crc32_value,
    md5, md5_digest, random_bytes, random_u32,
};
use crate::octets::{
    be16_bytes, be32_bytes, be64_bytes, push_all, push_be16, push_be32, push_be64,
};
use crate::outbound::vmess::kdf::{cascade, kdf12, kdf16, segments};
use crate::text::{decimal, decimal_text, join, utf8};
use crate::types::{Endpoint, Host, HostModel, IpAddress, IpModel};
use vstd::prelude::*;

verus! {

/// Opens a stream.
pub const CMD_TCP: u8 = 0x01;

/// Opens datagrams.
pub const CMD_UDP: u8 = 0x02;

pub const ADDR_IPV4: u8 = 0x01;

pub const ADDR_DOMAIN: u8 = 0x02;

pub const ADDR_IPV6: u8 = 0x03;

/// The option for standard chunked bodies.
pub const OPT_STANDARD: u8 = 0x01;

/// The text that is hashed after a UUID.
pub open spec fn magic() -> Seq<u8> {
    utf8("c48619fe-8f02-49e0-b9e9-edf763e17e21"@)
}

/// The command key of a UUID.
pub open spec fn command_key(uuid: Seq<u8>) -> Seq<u8> {
    md5_digest(uuid + magic())
}

/// The command key of a UUID.
pub fn cmd_key(uuid: &[u8; 16]) -> (key: [u8; 16])
    ensures
        key@ == md5_digest(uuid@ + magic()),
        key@ == command_key(uuid@),
{
    let mut input: Vec<u8> = Vec::new();
    push_all(&mut input, uuid);
    push_all(&mut input, "c48619fe-8f02-49e0-b9e9-edf763e17e21".as_bytes());
    assert(input@ =~= uuid@ + magic());
    md5(input.as_slice())
}

/// The cipher of a body.
#[derive(Clone, Copy, Debug, PartialEq, Eq, Structural)]
pub enum Security {
    Aes128Gcm,
    ChaCha20Poly1305,
    /// No encryption.
    Plain,
}

impl Security {
    /// The number that names the cipher in a header.
    pub open spec fn nibble(self) -> u8 {
        match self {
            Security::Aes128Gcm => 0x03,
            Security::ChaCha20Poly1305 => 0x04,
            Security::Plain => 0x05,
        }
    }

    /// The number that names the cipher in a header.
    pub fn to_nibble(self) -> (nibble: u8)
        ensures
            nibble == self.nibble(),
    {
        match self {
            Security::Aes128Gcm => 0x03,
            Security::ChaCha20Poly1305 => 0x04,
            Security::Plain => 0x05,
        }
    }
}

/// The cipher to use where none is asked for: AES-GCM on a processor with AES
/// instructions, ChaCha20 elsewhere.
pub fn auto_security(hardware_aes: bool) -> (security: Security)
    ensures
        security == (if hardware_aes {
            Security::Aes128Gcm
        } else {
            Security::ChaCha20Poly1305
        }),
{
    if hardware_aes {
        Security::Aes128Gcm
    } else {
        Security::ChaCha20Poly1305
    }
}

/// Where a connection goes: a name, which takes precedence where it is not
/// empty, or an address.
#[derive(Clone, Debug)]
pub struct Metadata {
    pub host: String,
    pub dst_ip: Option<IpAddress>,
    pub dst_port: u16,
}

impl Default for Metadata {
    fn default() -> (metadata: Metadata)
        ensures
            metadata.host@ == Seq::<char>::empty(),
            metadata.dst_ip is None,
            metadata.dst_port == 0,
    {
        Metadata { host: String::new(), dst_ip: None, dst_port: 0 }
    }
}

impl Metadata {
    /// The host that is written into the header.
    pub open spec fn destination(self) -> Option<HostModel> {
        if self.host@.len() > 0 {
            Some(HostModel::Domain(self.host@))
        } else {
            match self.dst_ip {
                Some(ip) => Some(HostModel::Ip(ip@)),
                None => None,
            }
        }
    }

    /// The destination of an endpoint. An empty name counts as no destination.
    pub fn from_endpoint(endpoint: &Endpoint) -> (metadata: Metadata)
        ensures
            metadata.dst_port == endpoint.port,
            match endpoint@.host {
                HostModel::Domain(name) => metadata.host@ == name && metadata.dst_ip is None,
                HostModel::Ip(ip) => {
                    &&& metadata.host@ == Seq::<char>::empty()
                    &&& metadata.dst_ip matches Some(address)
                    &&& address@ == ip
                },
            },
    {
        match &endpoint.host {
            Host::Domain(name) => Metadata {
                host: name.as_str().to_owned(),
                dst_ip: None,
                dst_port: endpoint.port,
            },
            Host::Ip(ip) => Metadata {
                host: String::new(),
                dst_ip: Some(*ip),
                dst_port: endpoint.port,
            },
        }
    }
}

/// The tags of an address.
pub open spec fn tags() -> Tags {
    Tags { v4: ADDR_IPV4, domain: ADDR_DOMAIN, v6: ADDR_IPV6 }
}

/// Why a destination cannot be written; `None` where it can.
pub open spec fn address_fault(destination: Option<HostModel>) -> Option<Seq<char>> {
    match destination {
        Some(HostModel::Domain(name)) => if utf8(name).len() > 255 {
            Some(
                "vmess: domain too long ("@ + decimal(utf8(name).len()) + " bytes, max 255)"@,
            )
        } else {
            None
        },
        Some(HostModel::Ip(_)) => None,
        None => Some("vmess: no destination address"@),
    }
}

/// Appends the destination; on an error nothing is appended.
pub fn encode_address(buf: &mut Vec<u8>, metadata: &Metadata) -> (done: Result<(), String>)
    ensures
        match address_fault(metadata.destination()) {
            None => done is Ok && final(buf)@ == old(buf)@ + host_bytes(
                tags(),
                metadata.destination()->0,
            ),
            Some(fault) => (done matches Err(message) && message@ == fault) && final(buf)@ == old(
                buf,
            )@,
        },
{
    let wire = Tags { v4: ADDR_IPV4, domain: ADDR_DOMAIN, v6: ADDR_IPV6 };
    if !metadata.host.as_str().is_empty() {
        let bytes = metadata.host.as_str().as_bytes();
        let host = Host::Domain(metadata.host.as_str().to_owned());
        if push_host(buf, wire, &host) {
            Ok(())
        } else {
            let count = decimal_text(bytes.len() as u64);
            let head = join("vmess: domain too long (", count.as_str());
            Err(join(head.as_str(), " bytes, max 255)"))
        }
    } else {
        match metadata.dst_ip {
            Some(ip) => {
                let host = Host::Ip(ip);
                let _written = push_host(buf, wire, &host);
                Ok(())
            },
            None => Err(String::from("vmess: no destination address")),
        }
    }
}

/// The 32-bit FNV-1a hash.
pub open spec fn fnv1a(data: Seq<u8>) -> u32
    decreases data.len(),
{
    if data.len() == 0 {
        0x811c_9dc5u32
    } else {
        (fnv1a(data.drop_last()) ^ (data.last() as u32)).wrapping_mul(0x0100_0193u32)
    }
}

/// Computes the 32-bit FNV-1a hash.
pub fn fnv1a32(data: &[u8]) -> (hash: u32)
    ensures
        hash == fnv1a(data@),
{
    let mut hash: u32 = 0x811c_9dc5;
    for i in 0..data.len()
        invariant
            hash == fnv1a(data@.take(i as int)),
    {
        assert(data@.take(i + 1).drop_last() =~= data@.take(i as int));
        hash = (hash ^ (data[i] as u32)).wrapping_mul(0x0100_0193);
    }
    assert(data@.take(data@.len() as int) =~= data@);
    hash
}

/// Random padding: the first `len` of some bytes.
#[derive(Clone, Copy, Debug)]
pub struct HeaderPadding {
    pub len: u8,
    pub bytes: [u8; 15],
}

/// The padding that a random number and random bytes give.
pub open spec fn padding_of(number: u32, bytes: [u8; 15]) -> HeaderPadding {
    HeaderPadding { len: (number % 16) as u8, bytes }
}

impl HeaderPadding {
    /// At most fifteen bytes are used.
    pub open spec fn wf(self) -> bool {
        self.len < 16
    }

    /// The padding that a random number and random bytes give: the number's
    /// remainder by sixteen is its length.
    pub fn of(number: u32, bytes: [u8; 15]) -> (padding: HeaderPadding)
        ensures
            padding.wf(),
            padding.len == number % 16,
            padding.bytes == bytes,
            padding == padding_of(number, bytes),
    {
        HeaderPadding { len: (number % 16) as u8, bytes }
    }

    /// Draws padding of up to fifteen bytes, each length and each byte by chance.
    pub fn draw() -> (padding: HeaderPadding)
        ensures
            padding.wf(),
    {
        HeaderPadding::of(random_u32(), random_bytes())
    }
}

/// The header without its hash.
pub open spec fn unhashed_header(
    req_key: Seq<u8>,
    req_iv: Seq<u8>,
    resp_v: u8,
    security: Security,
    destination: HostModel,
    port: u16,
    is_udp: bool,
    padding: HeaderPadding,
) -> Seq<u8> {
    seq![1u8] + req_iv + req_key + seq![
        resp_v,
        OPT_STANDARD,
        (padding.len * 16 + security.nibble()) as u8,
        0u8,
        if is_udp {
            CMD_UDP
        } else {
            CMD_TCP
        },
    ] + be16_bytes(port) + host_bytes(tags(), destination) + padding.bytes@.take(padding.len as int)
}

/// The header in the clear: its fields, the padding, and the FNV-1a hash of
/// both.
pub open spec fn plain_header(
    req_key: Seq<u8>,
    req_iv: Seq<u8>,
    resp_v: u8,
    security: Security,
    destination: HostModel,
    port: u16,
    is_udp: bool,
    padding: HeaderPadding,
) -> Seq<u8> {
    let body = unhashed_header(
        req_key,
        req_iv,
        resp_v,
        security,
        destination,
        port,
        is_udp,
        padding,
    );
    body + be32_bytes(fnv1a(body))
}

/// Builds the header in the clear.
pub fn build_header_plaintext(
    req_key: &[u8; 16],
    req_iv: &[u8; 16],
    resp_v: u8,
    security: Security,
    metadata: &Metadata,
    is_udp: bool,
    padding: &HeaderPadding,
) -> (header: Result<Vec<u8>, String>)
    requires
        padding.wf(),
    ensures
        match address_fault(metadata.destination()) {
            None => header matches Ok(bytes) && bytes@ == plain_header(
                req_key@,
                req_iv@,
                resp_v,
                security,
                metadata.destination()->0,
                metadata.dst_port,
                is_udp,
                *padding,
            ) && bytes@.len() < 1000,
            Some(fault) => header matches Err(message) && message@ == fault,
        },
{
    let mut buf: Vec<u8> = Vec::with_capacity(64);
    buf.push(0x01);
    push_all(&mut buf, req_iv);
    push_all(&mut buf, req_key);
    buf.push(resp_v);
    buf.push(OPT_STANDARD);
    buf.push(padding.len * 16 + security.to_nibble());
    buf.push(0x00);
    buf.push(
        if is_udp {
            CMD_UDP
        } else {
            CMD_TCP
        },
    );
    push_be16(&mut buf, metadata.dst_port);
    match encode_address(&mut buf, metadata) {
        Ok(()) => {},
        Err(message) => return Err(message),
    }
    push_all(&mut buf, vstd::slice::slice_subrange(&padding.bytes, 0, padding.len as usize));
    let ghost body = unhashed_header(
        req_key@,
        req_iv@,
        resp_v,
        security,
        metadata.destination()->0,
        metadata.dst_port,
        is_udp,
        *padding,
    );
    assert(buf@ =~= body);
    let hash = fnv1a32(buf.as_slice());
    push_be32(&mut buf, hash);
    Ok(buf)
}

/// What is drawn at random for one header.
#[derive(Clone, Copy, Debug)]
pub struct HeaderDraw {
    pub req_key: [u8; 16],
    pub req_iv: [u8; 16],
    pub resp_v: u8,
    pub conn_nonce: [u8; 8],
    pub auth_random: [u8; 4],
    pub padding: HeaderPadding,
}

impl HeaderDraw {
    /// What a header is made of where these came by chance: the byte that the
    /// answer repeats is the lowest of a random number.
    pub fn of(
        req_key: [u8; 16],
        req_iv: [u8; 16],
        number: u32,
        conn_nonce: [u8; 8],
        auth_random: [u8; 4],
        padding: HeaderPadding,
    ) -> (draw: HeaderDraw)
        ensures
            draw.req_key == req_key,
            draw.req_iv == req_iv,
            draw.resp_v == number % 256,
            draw.conn_nonce == conn_nonce,
            draw.auth_random == auth_random,
            draw.padding == padding,
    {
        HeaderDraw {
            req_key,
            req_iv,
            resp_v: (number % 256) as u8,
            conn_nonce,
            auth_random,
            padding,
        }
    }

    /// Draws everything afresh.
    pub fn draw() -> (draw: HeaderDraw)
        ensures
            draw.padding.wf(),
    {
        HeaderDraw::of(
            random_bytes(),
            random_bytes(),
            random_u32(),
            random_bytes(),
            random_bytes(),
            HeaderPadding::draw(),
        )
    }
}

/// A key derived from the command key and a labelled path.
pub open spec fn derived(cmd_key: Seq<u8>, path: Seq<Seq<u8>>, len: int) -> Seq<u8> {
    cascade(path, cmd_key).take(len)
}

/// The sixteen bytes that authenticate a connection: the time, four random
/// bytes and their checksum, encrypted under a key of their own.
pub open spec fn auth_id_bytes(cmd_key: Seq<u8>, now: u64, random: Seq<u8>) -> Seq<u8> {
    let head = be64_bytes(now) + random;
    aes128_block(
        derived(cmd_key, seq![utf8("AES Auth ID Encryption"@)], 16),
        head + be32_bytes(crc32_value(head)),
    )
}

/// Builds the authentication bytes from the time and four random bytes.
pub fn build_auth_id(cmd_key: &[u8; 16], now: u64, random: &[u8; 4]) -> (auth_id: [u8; 16])
    ensures
        auth_id@ == auth_id_bytes(cmd_key@, now, random@),
{
    let path: [&[u8]; 1] = ["AES Auth ID Encryption".as_bytes()];
    let key = kdf16(cmd_key, &path);
    assert(segments(path@) =~= seq![utf8("AES Auth ID Encryption"@)]);
    let mut input: Vec<u8> = Vec::new();
    push_be64(&mut input, now);
    push_all(&mut input, random);
    assert(input@ =~= be64_bytes(now) + random@);
    let crc = crc32(input.as_slice());
    push_be32(&mut input, crc);
    let block = crate::octets::array16(input.as_slice(), 0);
    assert(block@ =~= input@);
    aes128_encrypt_block(&key, block)
}

/// A sealed header, and what the body's keys are derived from.
pub struct SealedHeader {
    pub bytes: Vec<u8>,
    pub req_key: [u8; 16],
    pub req_iv: [u8; 16],
    pub resp_v: u8,
}

/// A message sealed under keys derived for it.
pub open spec fn sealed_part(
    cmd_key: Seq<u8>,
    auth_id: Seq<u8>,
    nonce: Seq<u8>,
    key_label: Seq<char>,
    nonce_label: Seq<char>,
    message: Seq<u8>,
) -> Seq<u8> {
    aes128_gcm_sealed(
        derived(cmd_key, seq![utf8(key_label), auth_id, nonce], 16),
        derived(cmd_key, seq![utf8(nonce_label), auth_id, nonce], 12),
        message,
        auth_id,
    )
}

/// The sealed length of a plain header.
pub open spec fn sealed_length(
    cmd_key: Seq<u8>,
    auth_id: Seq<u8>,
    nonce: Seq<u8>,
    plain: Seq<u8>,
) -> Seq<u8> {
    sealed_part(
        cmd_key,
        auth_id,
        nonce,
        "VMess Header AEAD Key_Length"@,
        "VMess Header AEAD Nonce_Length"@,
        be16_bytes(plain.len() as u16),
    )
}

/// A plain header sealed.
pub open spec fn sealed_plain(
    cmd_key: Seq<u8>,
    auth_id: Seq<u8>,
    nonce: Seq<u8>,
    plain: Seq<u8>,
) -> Seq<u8> {
    sealed_part(
        cmd_key,
        auth_id,
        nonce,
        "VMess Header AEAD Key"@,
        "VMess Header AEAD Nonce"@,
        plain,
    )
}

/// Seals one part of the header under the keys of its labels.
fn seal_part(
    cmd_key: &[u8; 16],
    auth_id: &[u8; 16],
    nonce: &[u8; 8],
    key_label: &str,
    nonce_label: &str,
    message: &[u8],
) -> (sealed: Result<Vec<u8>, String>)
    requires
        message@.len() < 1000,
    ensures
        sealed matches Ok(bytes) && bytes@ == sealed_part(
            cmd_key@,
            auth_id@,
            nonce@,
            key_label@,
            nonce_label@,
            message@,
        ) && bytes@.len() == message@.len() + 16,
{
    let key_path: [&[u8]; 3] = [key_label.as_bytes(), auth_id.as_slice(), nonce.as_slice()];
    let nonce_path: [&[u8]; 3] = [nonce_label.as_bytes(), auth_id.as_slice(), nonce.as_slice()];
    assert(segments(key_path@) =~= seq![utf8(key_label@), auth_id@, nonce@]);
    assert(segments(nonce_path@) =~= seq![utf8(nonce_label@), auth_id@, nonce@]);
    let key = kdf16(cmd_key, &key_path);
    let iv = kdf12(cmd_key, &nonce_path);
    aes128_gcm_seal(&key, &iv, message, auth_id)
}

/// Builds and seals a request header from what was drawn for it and the time.
pub fn seal_with(
    cmd_key: &[u8; 16],
    security: Security,
    metadata: &Metadata,
    is_udp: bool,
    draw: &HeaderDraw,
    now: u64,
) -> (sealed: Result<SealedHeader, String>)
    requires
        draw.padding.wf(),
    ensures
        match address_fault(metadata.destination()) {
            None => {
                &&& sealed matches Ok(header)
                &&& sealed_from(
                    header,
                    cmd_key@,
                    security,
                    metadata.destination()->0,
                    metadata.dst_port,
                    is_udp,
                    *draw,
                    now,
                )
            },
            Some(fault) => sealed matches Err(message) && message@ == fault,
        },
{
    let auth_id = build_auth_id(cmd_key, now, &draw.auth_random);
    let plaintext = match build_header_plaintext(
        &draw.req_key,
        &draw.req_iv,
        draw.resp_v,
        security,
        metadata,
        is_udp,
        &draw.padding,
    ) {
        Ok(plaintext) => plaintext,
        Err(message) => return Err(message),
    };
    let encrypted_header = match seal_part(
        cmd_key,
        &auth_id,
        &draw.conn_nonce,
        "VMess Header AEAD Key",
        "VMess Header AEAD Nonce",
        plaintext.as_slice(),
    ) {
        Ok(bytes) => bytes,
        Err(message) => return Err(join("vmess: header encrypt: ", message.as_str())),
    };
    let mut length: Vec<u8> = Vec::new();
    push_be16(&mut length, plaintext.len() as u16);
    assert(length@ =~= be16_bytes(plaintext@.len() as u16));
    let encrypted_length = match seal_part(
        cmd_key,
        &auth_id,
        &draw.conn_nonce,
        "VMess Header AEAD Key_Length",
        "VMess Header AEAD Nonce_Length",
        length.as_slice(),
    ) {
        Ok(bytes) => bytes,
        Err(message) => return Err(join("vmess: length encrypt: ", message.as_str())),
    };
    let mut out: Vec<u8> = Vec::new();
    push_all(&mut out, &auth_id);
    push_all(&mut out, encrypted_length.as_slice());
    push_all(&mut out, &draw.conn_nonce);
    push_all(&mut out, encrypted_header.as_slice());
    assert(out@ =~= auth_id@ + encrypted_length@ + draw.conn_nonce@ + encrypted_header@);
    Ok(
        SealedHeader {
            bytes: out,
            req_key: draw.req_key,
            req_iv: draw.req_iv,
            resp_v: draw.resp_v,
        },
    )
}

/// `std::time::SystemTime`, a reading of the system's clock.
#[verifier::external_type_specification]
#[verifier::external_body]
pub struct ExSystemTime(std::time::SystemTime);

/// `std::time::SystemTime::now`: nothing is claimed of what the clock shows.
pub assume_specification[ std::time::SystemTime::now ]() -> std::time::SystemTime
;

/// `std::time::Duration::as_secs`: nothing is claimed of a span, which rests on
/// the clock.
pub assume_specification[ std::time::Duration::as_secs ](span: &std::time::Duration) -> u64
;

/// `std::time::SystemTime::duration_since` the Unix epoch: nothing is claimed of
/// it; there is no span where the clock stands before the epoch.
#[verifier::external_body]
fn since_epoch(now: &std::time::SystemTime) -> (span: Option<std::time::Duration>) {
    now.duration_since(std::time::UNIX_EPOCH).ok()
}

/// The seconds since the Unix epoch; zero on a clock that stands before it.
fn unix_seconds() -> (now: u64) {
    let time = std::time::SystemTime::now();
    match since_epoch(&time) {
        Some(span) => span.as_secs(),
        None => 0,
    }
}

/// Builds and seals a request header with fresh random values and the current
/// time.
pub fn seal_request_header(
    cmd_key: &[u8; 16],
    security: Security,
    metadata: &Metadata,
    is_udp: bool,
) -> (sealed: Result<SealedHeader, String>)
    ensures
        match address_fault(metadata.destination()) {
            None => sealed matches Ok(header) && exists|draw: HeaderDraw, now: u64|
                sealed_from(
                    header,
                    cmd_key@,
                    security,
                    metadata.destination()->0,
                    metadata.dst_port,
                    is_udp,
                    draw,
                    now,
                ),
            Some(fault) => sealed matches Err(message) && message@ == fault,
        },
{
    let draw = HeaderDraw::draw();
    let now = unix_seconds();
    let sealed = seal_with(cmd_key, security, metadata, is_udp, &draw, now);
    proof {
        if address_fault(metadata.destination()) is None {
            assert(sealed_from(
                sealed->Ok_0,
                cmd_key@,
                security,
                metadata.destination()->0,
                metadata.dst_port,
                is_udp,
                draw,
                now,
            ));
        }
    }
    sealed
}

/// Whether a header is the one that `draw` and `now` give: the authentication
/// bytes, the eighteen bytes of the sealed length, the nonce, and the sealed
/// header, which is sixteen bytes longer than the plain one.
pub open spec fn sealed_from(
    header: SealedHeader,
    cmd_key: Seq<u8>,
    security: Security,
    destination: HostModel,
    port: u16,
    is_udp: bool,
    draw: HeaderDraw,
    now: u64,
) -> bool {
    let plain = plain_header(
        draw.req_key@,
        draw.req_iv@,
        draw.resp_v,
        security,
        destination,
        port,
        is_udp,
        draw.padding,
    );
    let auth_id = auth_id_bytes(cmd_key, now, draw.auth_random@);
    let sealed_length = sealed_length(cmd_key, auth_id, draw.conn_nonce@, plain);
    let sealed_plain = sealed_plain(cmd_key, auth_id, draw.conn_nonce@, plain);
    &&& draw.padding.wf()
    &&& header.req_key == draw.req_key
    &&& header.req_iv == draw.req_iv
    &&& header.resp_v == draw.resp_v
    &&& header.bytes@ == auth_id + sealed_length + draw.conn_nonce@ + sealed_plain
    &&& auth_id.len() == 16
    &&& sealed_length.len() == 18
    &&& draw.conn_nonce@.len() == 8
    &&& sealed_plain.len() == plain.len() + 16
}

/// What a server reads in a plain header: the version, the keys of the body, the
/// byte that the answer repeats, the option for standard bodies, the length of
/// the padding and the cipher in one byte, a reserved byte, the command, which is
/// one for a stream and two for datagrams, the port before the address, the
/// padding, and as the last four bytes the hash of all before them.
pub proof fn law_plain_header_layout(
    req_key: Seq<u8>,
    req_iv: Seq<u8>,
    resp_v: u8,
    security: Security,
    destination: HostModel,
    port: u16,
    is_udp: bool,
    padding: HeaderPadding,
)
    requires
        req_key.len() == 16,
        req_iv.len() == 16,
        destination.wf(),
        padding.wf(),
    ensures
        ({
            let plain = plain_header(
                req_key,
                req_iv,
                resp_v,
                security,
                destination,
                port,
                is_udp,
                padding,
            );
            let wire = host_bytes(tags(), destination);
            let len = plain.len();
            &&& plain[0] == 1
            &&& plain.subrange(1, 17) == req_iv
            &&& plain.subrange(17, 33) == req_key
            &&& plain[33] == resp_v
            &&& plain[34] == 1
            &&& plain[35] == padding.len * 16 + (match security {
                Security::Aes128Gcm => 3int,
                Security::ChaCha20Poly1305 => 4int,
                Security::Plain => 5int,
            })
            &&& plain[36] == 0
            &&& plain[37] == (if is_udp {
                2u8
            } else {
                1u8
            })
            &&& plain[38] as int * 256 + plain[39] as int == port
            &&& plain.subrange(38, 40) == be16_bytes(port)
            &&& plain.subrange(40, 40 + wire.len() as int) == wire
            &&& match destination {
                HostModel::Ip(IpModel::V4(octets)) => plain[40] == 1 && plain.subrange(41, 45)
                    == octets && wire.len() == 5,
                HostModel::Domain(name) => plain[40] == 2 && (utf8(name).len() <= 255
                    ==> plain[41] == utf8(name).len()) && plain.subrange(
                    42,
                    42 + utf8(name).len() as int,
                ) == utf8(name) && wire.len() == 2 + utf8(name).len(),
                HostModel::Ip(IpModel::V6(octets)) => plain[40] == 3 && plain.subrange(41, 57)
                    == octets && wire.len() == 17,
            }
            &&& len == 40 + wire.len() + padding.len + 4
            &&& plain.subrange(40 + wire.len() as int, len - 4) == padding.bytes@.take(
                padding.len as int,
            )
            &&& plain.subrange(len - 4, len as int) == be32_bytes(fnv1a(plain.take(len - 4)))
        }),
{
    let body = unhashed_header(
        req_key,
        req_iv,
        resp_v,
        security,
        destination,
        port,
        is_udp,
        padding,
    );
    let plain = body + be32_bytes(fnv1a(body));
    let wire = host_bytes(tags(), destination);
    assert(plain.take(plain.len() - 4) =~= body);
    assert(plain.subrange(1, 17) =~= req_iv);
    assert(plain.subrange(17, 33) =~= req_key);
    assert(plain.subrange(38, 40) =~= be16_bytes(port));
    assert(plain.subrange(40, 40 + wire.len() as int) =~= wire);
    assert(plain.subrange(40 + wire.len() as int, plain.len() - 4) =~= padding.bytes@.take(
        padding.len as int,
    ));
    match destination {
        HostModel::Ip(IpModel::V4(octets)) => {
            assert(plain.subrange(41, 45) =~= octets);
        },
        HostModel::Ip(IpModel::V6(octets)) => {
            assert(plain.subrange(41, 57) =~= octets);
        },
        HostModel::Domain(name) => {
            assert(plain.subrange(42, 42 + utf8(name).len() as int) =~= utf8(name));
        },
    }
    assert(plain.subrange(plain.len() - 4, plain.len() as int) =~= be32_bytes(fnv1a(body)));
}

/// The hash of nothing is the offset basis of FNV-1a, and each further byte is
/// mixed in and then multiplied by its prime.
pub proof fn law_hash(data: Seq<u8>, next: u8)
    ensures
        fnv1a(Seq::empty()) == 2166136261,
        fnv1a(data.push(next)) as int == ((fnv1a(data) ^ (next as u32)) as int * 16777619)
            % 0x1_0000_0000,
{
    assert(data.push(next).drop_last() =~= data);
}

/// A name goes before an address, and a destination can be written unless it is
/// missing or its name takes more than 255 bytes.
pub proof fn law_destination(metadata: Metadata)
    ensures
        metadata.host@.len() > 0 ==> metadata.destination() == Some(
            HostModel::Domain(metadata.host@),
        ),
        metadata.host@.len() == 0 ==> (match metadata.dst_ip {
            Some(ip) => metadata.destination() == Some(HostModel::Ip(ip@)),
            None => metadata.destination() is None,
        }),
        address_fault(metadata.destination()) is None <==> if metadata.host@.len() > 0 {
            utf8(metadata.host@).len() <= 255
        } else {
            metadata.dst_ip is Some
        },
{
}

/// What a server that knows the command key finds in a sealed header: sixteen
/// bytes that decrypt to the time, four random bytes and their checksum; under
/// keys of their own, each bound to those bytes and to the nonce, the length of
/// the header and the header.
pub proof fn law_sealed_layout(
    header: SealedHeader,
    cmd_key: Seq<u8>,
    security: Security,
    destination: HostModel,
    port: u16,
    is_udp: bool,
    draw: HeaderDraw,
    now: u64,
)
    requires
        sealed_from(header, cmd_key, security, destination, port, is_udp, draw, now),
    ensures
        ({
            let bytes = header.bytes@;
            let id = bytes.take(16);
            let nonce = bytes.subrange(34, 42);
            let stamp = be64_bytes(now) + draw.auth_random@;
            let plain = plain_header(
                draw.req_key@,
                draw.req_iv@,
                draw.resp_v,
                security,
                destination,
                port,
                is_udp,
                draw.padding,
            );
            let key = |label: Seq<char>, len: int|
                cascade(seq![utf8(label), id, nonce], cmd_key).take(len);
            &&& id == aes128_block(
                cascade(seq![utf8("AES Auth ID Encryption"@)], cmd_key).take(16),
                stamp + be32_bytes(crc32_value(stamp)),
            )
            &&& nonce == draw.conn_nonce@
            &&& bytes.subrange(16, 34) == aes128_gcm_sealed(
                key("VMess Header AEAD Key_Length"@, 16),
                key("VMess Header AEAD Nonce_Length"@, 12),
                be16_bytes(plain.len() as u16),
                id,
            )
            &&& bytes.skip(42) == aes128_gcm_sealed(
                key("VMess Header AEAD Key"@, 16),
                key("VMess Header AEAD Nonce"@, 12),
                plain,
                id,
            )
            &&& header.req_key == draw.req_key && header.req_iv == draw.req_iv && header.resp_v
                == draw.resp_v
        }),
{
    let plain = plain_header(
        draw.req_key@,
        draw.req_iv@,
        draw.resp_v,
        security,
        destination,
        port,
        is_udp,
        draw.padding,
    );
    let auth_id = auth_id_bytes(cmd_key, now, draw.auth_random@);
    let bytes = header.bytes@;
    assert(bytes.take(16) =~= auth_id);
    assert(bytes.subrange(34, 42) =~= draw.conn_nonce@);
    assert(bytes.subrange(16, 34) =~= sealed_length(cmd_key, auth_id, draw.conn_nonce@, plain));
    assert(bytes.skip(42) =~= sealed_plain(cmd_key, auth_id, draw.conn_nonce@, plain));
}

/// The command key is the MD5 digest of the sixteen bytes of the UUID and of the
/// thirty-six letters of a UUID that every server knows.
pub proof fn law_command_key(uuid: Seq<u8>)
    ensures
        command_key(uuid) == md5_digest(uuid + utf8("c48619fe-8f02-49e0-b9e9-edf763e17e21"@)),
        magic().len() == 36,
{
    reveal_strlit("c48619fe-8f02-49e0-b9e9-edf763e17e21");
    vstd::utf8::is_ascii_chars_encode_utf8("c48619fe-8f02-49e0-b9e9-edf763e17e21"@);
}

/// Every length of padding from zero to fifteen is as likely as any other: it is
/// what sixteen leaves of a random number.
pub proof fn law_padding_drawn(number: u32, bytes: [u8; 15], wanted: u8)
    ensures
        padding_of(number, bytes).len < 16,
        (number - padding_of(number, bytes).len) % 16 == 0,
        padding_of(number, bytes).bytes == bytes,
        wanted < 16 ==> padding_of(wanted as u32, bytes).len == wanted,
{
}

} // verus!
