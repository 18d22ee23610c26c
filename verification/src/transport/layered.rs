//! The layers between TCP and a protocol: TLS, plain or pinned to public keys,
//! and a framing above it.
use crate::crypto::{check_server_name, server_name_error, sha256, sha256_digest};
use crate::octets::{byte_views, copy_range, same_bytes};
use crate::outbound::tls_name::name_view;
use crate::text::{join, utf8};
use crate::transport::config::{TlsLayerConfig, TransportError, V2RayTransportConfig};
use rustls::pki_types::{CertificateDer, PrivateKeyDer};
use vstd::prelude::*;

verus! {

/// The text of the error where bytes are no trust anchor.
pub uninterp spec fn authority_error(der: Seq<u8>) -> Option<Seq<char>>;

/// `rustls::RootCertStore::add`: whether a certificate is accepted as a trust
/// anchor, and the text of the error where it is not, are a function of its
/// bytes.
#[verifier::external_body]
fn check_authority(der: &[u8]) -> (checked: Result<(), String>)
    ensures
        checked is Ok <==> authority_error(der@) is None,
        checked matches Err(error) ==> authority_error(der@) == Some(error@),
{
    rustls::RootCertStore::empty().add(rustls::pki_types::CertificateDer::from(der)).map_err(
        |error| error.to_string(),
    )
}

/// The text of the error where bytes are no usable list of ECH configurations.
pub uninterp spec fn ech_error(list: Seq<u8>) -> Option<Seq<char>>;

/// `rustls::client::EchConfig::new` with every suite of aws-lc-rs: whether a
/// list holds a usable configuration, and the text of the error where it does
/// not, are a function of its bytes.
#[verifier::external_body]
fn check_ech(list: &[u8]) -> (checked: Result<(), String>)
    ensures
        checked is Ok <==> ech_error(list@) is None,
        checked matches Err(error) ==> ech_error(list@) == Some(error@),
{
    rustls::client::EchConfig::new(
        rustls::pki_types::EchConfigListBytes::from(list),
        rustls::crypto::aws_lc_rs::hpke::ALL_SUPPORTED_SUITES,
    ).map(|_| ()).map_err(|error| error.to_string())
}

/// The certificates in a PEM file, or the text of the error.
pub uninterp spec fn pem_certificates(pem: Seq<u8>) -> Result<Seq<Seq<u8>>, Seq<char>>;

/// Whether the certificates are those of a PEM file.
pub open spec fn is_pem_certificates(pem: Seq<u8>, certificates: Seq<Vec<u8>>) -> bool {
    pem_certificates(pem) is Ok && pem_certificates(pem)->Ok_0 == byte_views(certificates)
}

/// `rustls_pemfile::certs`, collected: the certificates in their order, or the
/// text of the first error, are a function of the bytes.
#[verifier::external_body]
pub(crate) fn read_certificates(pem: &[u8]) -> (certificates: Result<Vec<Vec<u8>>, String>)
    ensures
        certificates is Ok <==> pem_certificates(pem@) is Ok,
        certificates matches Ok(list) ==> is_pem_certificates(pem@, list@),
        certificates matches Err(error) ==> pem_certificates(pem@)->Err_0 == error@,
{
    let mut pem = pem;
    rustls_pemfile::certs(&mut pem).map(
        |der| der.map(|der| der.to_vec()).map_err(|error| error.to_string()),
    ).collect()
}

/// How the bytes of a private key are to be read.
#[derive(Clone, Copy, Debug, PartialEq, Eq, Structural)]
pub enum KeyFormat {
    Pkcs1,
    Sec1,
    Pkcs8,
}

/// A private key.
#[derive(Clone, Debug, PartialEq, Eq)]
pub struct PrivateKey {
    pub format: KeyFormat,
    pub der: Vec<u8>,
}

/// What an optional key holds.
pub open spec fn key_view(key: Option<PrivateKey>) -> Option<(KeyFormat, Seq<u8>)> {
    match key {
        Some(key) => Some((key.format, key.der@)),
        None => None,
    }
}

/// The first private key in a PEM file, or the text of the error.
pub uninterp spec fn pem_key(pem: Seq<u8>) -> Result<Option<(KeyFormat, Seq<u8>)>, Seq<char>>;

/// Whether the key is that of a PEM file.
pub open spec fn is_pem_key(pem: Seq<u8>, key: Option<PrivateKey>) -> bool {
    pem_key(pem) is Ok && pem_key(pem)->Ok_0 == key_view(key)
}

/// `rustls_pemfile::private_key`: the format and the bytes of the first key,
/// nothing, or the text of the error, are a function of the bytes. The keys it
/// gives are of the three formats.
#[verifier::external_body]
pub(crate) fn read_key(pem: &[u8]) -> (key: Result<Option<PrivateKey>, String>)
    ensures
        key is Ok <==> pem_key(pem@) is Ok,
        key matches Ok(found) ==> is_pem_key(pem@, found),
        key matches Err(error) ==> pem_key(pem@)->Err_0 == error@,
{
    let mut pem = pem;
    let (format, der) = match rustls_pemfile::private_key(&mut pem) {
        Ok(Some(PrivateKeyDer::Pkcs1(key))) => (KeyFormat::Pkcs1, key.secret_pkcs1_der().to_vec()),
        Ok(Some(PrivateKeyDer::Sec1(key))) => (KeyFormat::Sec1, key.secret_sec1_der().to_vec()),
        Ok(Some(PrivateKeyDer::Pkcs8(key))) => (KeyFormat::Pkcs8, key.secret_pkcs8_der().to_vec()),
        Ok(_) => return Ok(None),
        Err(error) => return Err(error.to_string()),
    };
    Ok(Some(PrivateKey { format, der }))
}

/// The text of the error where a key is refused, or is not that of the first
/// certificate.
pub uninterp spec fn identity_error(
    certificates: Seq<Seq<u8>>,
    format: KeyFormat,
    der: Seq<u8>,
) -> Option<Seq<char>>;

/// `rustls::sign::CertifiedKey::from_der` with the provider of aws-lc-rs:
/// whether the certificates and the key are accepted, and the text of the error
/// where they are not, are a function of their bytes.
#[verifier::external_body]
pub(crate) fn check_identity(certificates: &Vec<Vec<u8>>, key: &PrivateKey) -> (checked: Result<
    (),
    String,
>)
    ensures
        checked is Ok <==> identity_error(byte_views(certificates@), key.format, key.der@) is None,
        checked matches Err(error) ==> identity_error(
            byte_views(certificates@),
            key.format,
            key.der@,
        ) == Some(error@),
{
    let der = key.der.clone();
    let private_key = match key.format {
        KeyFormat::Pkcs1 => PrivateKeyDer::Pkcs1(der.into()),
        KeyFormat::Sec1 => PrivateKeyDer::Sec1(der.into()),
        KeyFormat::Pkcs8 => PrivateKeyDer::Pkcs8(der.into()),
    };
    rustls::sign::CertifiedKey::from_der(
        certificates.iter().map(|certificate| CertificateDer::from(certificate.clone())).collect(),
        private_key,
        &rustls::crypto::aws_lc_rs::default_provider(),
    ).map(|_| ()).map_err(|error| error.to_string())
}

/// What optional bytes hold.
pub open spec fn bytes_view(bytes: Option<Vec<u8>>) -> Option<Seq<u8>> {
    match bytes {
        Some(bytes) => Some(bytes@),
        None => None,
    }
}

/// What a TLS client is built from.
pub struct ClientParts {
    /// Whether the chain and the name of the server's certificate are checked.
    pub verify_chain: bool,
    /// The certificates and the key by which the client proves itself.
    pub identity: Option<(Vec<Vec<u8>>, PrivateKey)>,
    /// The protocols offered, as bytes.
    pub alpn: Vec<Vec<u8>>,
    /// The authorities that are trusted besides those of the host.
    pub authorities: Vec<Vec<u8>>,
    /// The digests of the public keys that a server may have; any where there
    /// are none.
    pub pins: Vec<[u8; 32]>,
    /// The list of ECH configurations of the server.
    pub ech: Option<Vec<u8>>,
}

/// The same over plain values.
#[verifier::ext_equal]
pub struct PartsModel {
    pub verify_chain: bool,
    pub identity: Option<(Seq<Seq<u8>>, KeyFormat, Seq<u8>)>,
    pub alpn: Seq<Seq<u8>>,
    pub authorities: Seq<Seq<u8>>,
    pub pins: Seq<[u8; 32]>,
    pub ech: Option<Seq<u8>>,
}

impl ClientParts {
    pub open spec fn view(&self) -> PartsModel {
        PartsModel {
            verify_chain: self.verify_chain,
            identity: match self.identity {
                Some(pair) => Some((byte_views(pair.0@), pair.1.format, pair.1.der@)),
                None => None,
            },
            alpn: byte_views(self.alpn@),
            authorities: byte_views(self.authorities@),
            pins: self.pins@,
            ech: bytes_view(self.ech),
        }
    }
}

/// What is said of the first authority that is refused; `None` where all are
/// accepted.
pub open spec fn authorities_fault(authorities: Seq<Seq<u8>>) -> Option<Seq<char>>
    decreases authorities.len(),
{
    if authorities.len() == 0 {
        None
    } else {
        match authority_error(authorities[0]) {
            Some(error) => Some("TLS CA certificate: "@ + error),
            None => authorities_fault(authorities.skip(1)),
        }
    }
}

/// What is said of a list of ECH configurations that is refused.
pub open spec fn ech_fault(list: Option<Seq<u8>>) -> Option<Seq<char>> {
    match list {
        Some(list) => match ech_error(list) {
            Some(error) => Some("TLS ECH config: "@ + error),
            None => None,
        },
        None => None,
    }
}

/// The client's identity, or why there is none.
pub open spec fn identity_of(certificate: Option<Seq<u8>>, key: Option<Seq<u8>>) -> Result<
    Option<(Seq<Seq<u8>>, KeyFormat, Seq<u8>)>,
    Seq<char>,
> {
    match (certificate, key) {
        (Some(certificate), Some(key)) => match pem_certificates(certificate) {
            Err(error) => Err("TLS client certificate: "@ + error),
            Ok(certificates) => match pem_key(key) {
                Err(error) => Err("TLS client key: "@ + error),
                Ok(None) => Err("TLS client private key PEM is empty"@),
                Ok(Some((format, der))) => match identity_error(certificates, format, der) {
                    Some(error) => Err("TLS client identity: "@ + error),
                    None => Ok(Some((certificates, format, der))),
                },
            },
        },
        (None, None) => Ok(None),
        _ => Err("TLS client certificate and key must be paired"@),
    }
}

/// The bytes of each protocol's name.
pub open spec fn alpn_bytes(alpn: Seq<String>) -> Seq<Seq<u8>> {
    alpn.map_values(|name: String| utf8(name@))
}

/// What a TLS client is built from, or why it cannot be.
pub open spec fn parts_of(config: TlsLayerConfig) -> Result<PartsModel, Seq<char>> {
    match authorities_fault(byte_views(config.certificate_authorities_der@)) {
        Some(fault) => Err(fault),
        None => match ech_fault(bytes_view(config.ech_config)) {
            Some(fault) => Err(fault),
            None => match identity_of(
                bytes_view(config.client_certificate_pem),
                bytes_view(config.client_private_key_pem),
            ) {
                Err(fault) => Err(fault),
                Ok(identity) => Ok(
                    PartsModel {
                        verify_chain: !config.insecure,
                        identity,
                        alpn: alpn_bytes(config.alpn@),
                        authorities: byte_views(config.certificate_authorities_der@),
                        pins: config.public_key_pins@,
                        ech: bytes_view(config.ech_config),
                    },
                ),
            },
        },
    }
}

fn check_authorities(authorities: &Vec<Vec<u8>>) -> (done: Result<(), TransportError>)
    ensures
        match authorities_fault(byte_views(authorities@)) {
            None => done is Ok,
            Some(fault) => done matches Err(error) && error.message@ == fault,
        },
{
    let ghost all = byte_views(authorities@);
    assert(all.skip(0) =~= all);
    for i in 0..authorities.len()
        invariant
            all == byte_views(authorities@),
            authorities_fault(all.skip(i as int)) == authorities_fault(all),
    {
        assert(all.skip(i as int)[0] == authorities@[i as int]@);
        assert(all.skip(i as int).skip(1) =~= all.skip(i + 1));
        match check_authority(authorities[i].as_slice()) {
            Ok(()) => {},
            Err(error) => {
                return Err(
                    TransportError { message: join("TLS CA certificate: ", error.as_str()) },
                );
            },
        }
    }
    assert(all.skip(authorities@.len() as int).len() == 0);
    Ok(())
}

fn client_identity(certificate: &Option<Vec<u8>>, key: &Option<Vec<u8>>) -> (identity: Result<
    Option<(Vec<Vec<u8>>, PrivateKey)>,
    TransportError,
>)
    ensures
        match identity_of(bytes_view(*certificate), bytes_view(*key)) {
            Ok(None) => identity matches Ok(None),
            Ok(Some(pair)) => identity matches Ok(Some(found)) && byte_views(found.0@) == pair.0
                && found.1.format == pair.1 && found.1.der@ == pair.2,
            Err(fault) => identity matches Err(error) && error.message@ == fault,
        },
{
    match (certificate, key) {
        (Some(certificate), Some(key)) => {
            let certificates = match read_certificates(certificate.as_slice()) {
                Ok(certificates) => certificates,
                Err(error) => return Err(
                    TransportError { message: join("TLS client certificate: ", error.as_str()) },
                ),
            };
            match read_key(key.as_slice()) {
                Err(error) => Err(
                    TransportError { message: join("TLS client key: ", error.as_str()) },
                ),
                Ok(None) => Err(TransportError::new("TLS client private key PEM is empty")),
                Ok(Some(key)) => match check_identity(&certificates, &key) {
                    Ok(()) => Ok(Some((certificates, key))),
                    Err(error) => Err(
                        TransportError { message: join("TLS client identity: ", error.as_str()) },
                    ),
                },
            }
        },
        (None, None) => Ok(None),
        _ => Err(TransportError::new("TLS client certificate and key must be paired")),
    }
}

fn copy_all(parts: &Vec<Vec<u8>>) -> (copies: Vec<Vec<u8>>)
    ensures
        byte_views(copies@) == byte_views(parts@),
{
    let mut copies: Vec<Vec<u8>> = Vec::new();
    for i in 0..parts.len()
        invariant
            byte_views(copies@) =~= byte_views(parts@.take(i as int)),
    {
        let ghost before = byte_views(copies@);
        let copy = copy_range(parts[i].as_slice(), 0, parts[i].len());
        assert(copy@ =~= parts@[i as int]@);
        copies.push(copy);
        assert(byte_views(copies@) =~= before.push(copy@));
        assert(byte_views(parts@.take(i + 1)) =~= byte_views(parts@.take(i as int)).push(copy@));
    }
    assert(parts@.take(parts@.len() as int) =~= parts@);
    copies
}

fn copy_pins(pins: &Vec<[u8; 32]>) -> (copies: Vec<[u8; 32]>)
    ensures
        copies@ == pins@,
{
    let mut copies: Vec<[u8; 32]> = Vec::new();
    for i in 0..pins.len()
        invariant
            copies@ == pins@.take(i as int),
    {
        copies.push(pins[i]);
        assert(copies@ =~= pins@.take(i + 1));
    }
    assert(pins@.take(pins@.len() as int) =~= pins@);
    copies
}

/// Checks a configuration for a TLS client and gives what the client is built
/// from: its authorities, its pins and its ECH list with the rest.
pub fn rustls_client_config(config: &TlsLayerConfig) -> (parts: Result<ClientParts, TransportError>)
    ensures
        match parts_of(*config) {
            Ok(model) => parts matches Ok(parts) && parts@ == model,
            Err(fault) => parts matches Err(error) && error.message@ == fault,
        },
        parts matches Ok(parts) ==> {
            &&& parts.verify_chain == !config.insecure
            &&& byte_views(parts.authorities@) == byte_views(config.certificate_authorities_der@)
            &&& parts.pins@ == config.public_key_pins@
            &&& bytes_view(parts.ech) == bytes_view(config.ech_config)
        },
{
    match check_authorities(&config.certificate_authorities_der) {
        Ok(()) => {},
        Err(error) => return Err(error),
    }
    if let Some(list) = &config.ech_config {
        match check_ech(list.as_slice()) {
            Ok(()) => {},
            Err(error) => return Err(
                TransportError { message: join("TLS ECH config: ", error.as_str()) },
            ),
        }
    }
    let identity = match client_identity(
        &config.client_certificate_pem,
        &config.client_private_key_pem,
    ) {
        Ok(identity) => identity,
        Err(error) => return Err(error),
    };
    let mut alpn: Vec<Vec<u8>> = Vec::new();
    for i in 0..config.alpn.len()
        invariant
            byte_views(alpn@) =~= alpn_bytes(config.alpn@.take(i as int)),
    {
        let name = config.alpn[i].as_str().as_bytes();
        let ghost before = byte_views(alpn@);
        let copy = copy_range(name, 0, name.len());
        assert(copy@ =~= utf8(config.alpn@[i as int]@));
        alpn.push(copy);
        assert(byte_views(alpn@) =~= before.push(copy@));
        assert(alpn_bytes(config.alpn@.take(i + 1)) =~= alpn_bytes(config.alpn@.take(i as int)).push(
            copy@,
        ));
    }
    assert(config.alpn@.take(config.alpn@.len() as int) =~= config.alpn@);
    let authorities = copy_all(&config.certificate_authorities_der);
    let pins = copy_pins(&config.public_key_pins);
    let ech = match &config.ech_config {
        Some(list) => {
            let copy = copy_range(list.as_slice(), 0, list.len());
            assert(copy@ =~= list@);
            Some(copy)
        },
        None => None,
    };
    Ok(ClientParts { verify_chain: !config.insecure, identity, alpn, authorities, pins, ech })
}

/// The TLS layer of a transport.
pub enum TlsLayer {
    /// There is none.
    Plain,
    /// A client that checks the server's public key, and the name it asks for.
    Pinned(ClientParts, String),
    /// An ordinary or shaped client.
    Shaped(TlsLayerConfig),
}

/// The layers of a transport, from TCP up.
pub struct LayeredTransport {
    pub tls: TlsLayer,
    pub framing: Option<V2RayTransportConfig>,
}

/// The TLS layer over plain values.
pub enum TlsLayerModel {
    Plain,
    Pinned(PartsModel, Seq<char>),
    Shaped(TlsLayerConfig),
}

impl TlsLayer {
    pub open spec fn view(&self) -> TlsLayerModel {
        match *self {
            TlsLayer::Plain => TlsLayerModel::Plain,
            TlsLayer::Pinned(parts, name) => TlsLayerModel::Pinned(parts@, name@),
            TlsLayer::Shaped(config) => TlsLayerModel::Shaped(config),
        }
    }
}

/// The client of a pinned TLS layer, or why there is none.
pub open spec fn pinned_layer(config: TlsLayerConfig) -> Result<TlsLayerModel, Seq<char>> {
    match parts_of(config) {
        Err(fault) => Err(fault),
        Ok(parts) => match name_view(config.server_name) {
            None => Err("TLS pinning requires server_name"@),
            Some(name) => match server_name_error(name) {
                Some(error) => Err("TLS server_name: "@ + error),
                None => Ok(TlsLayerModel::Pinned(parts, name)),
            },
        },
    }
}

/// The TLS layer that a configuration asks for, or why there is none. Without
/// `shaping` no fingerprint can be imitated.
pub open spec fn tls_layer(tls: Option<TlsLayerConfig>, shaping: bool) -> Result<
    TlsLayerModel,
    Seq<char>,
> {
    match tls {
        None => Ok(TlsLayerModel::Plain),
        Some(config) => if !config.enabled {
            Ok(TlsLayerModel::Plain)
        } else if !shaping && config.fingerprint is Some {
            Err("TLS fingerprint shaping requires the `fingerprint` build feature"@)
        } else if config.public_key_pins@.len() > 0 {
            if config.reality is Some || config.fingerprint is Some {
                Err(
                    "TLS public-key pinning cannot be combined with REALITY or fingerprint shaping"@,
                )
            } else {
                pinned_layer(config)
            }
        } else if (config.client_certificate_pem is Some) != (config.client_private_key_pem
            is Some) {
            Err("TLS client certificate and private key must be configured together"@)
        } else {
            Ok(TlsLayerModel::Shaped(config))
        },
    }
}

fn new_pinned(config: &TlsLayerConfig) -> (layer: Result<TlsLayer, TransportError>)
    ensures
        match pinned_layer(*config) {
            Ok(model) => layer matches Ok(layer) && layer@ == model,
            Err(fault) => layer matches Err(error) && error.message@ == fault,
        },
{
    let parts = match rustls_client_config(config) {
        Ok(parts) => parts,
        Err(error) => return Err(error),
    };
    match &config.server_name {
        None => Err(TransportError::new("TLS pinning requires server_name")),
        Some(name) => match check_server_name(name.as_str()) {
            Ok(()) => Ok(TlsLayer::Pinned(parts, name.clone())),
            Err(error) => Err(
                TransportError { message: join("TLS server_name: ", error.as_str()) },
            ),
        },
    }
}

impl LayeredTransport {
    /// Plans the layers. `shaping` says whether fingerprints can be imitated.
    pub fn new(
        tls: Option<TlsLayerConfig>,
        transport: Option<V2RayTransportConfig>,
        shaping: bool,
    ) -> (made: Result<LayeredTransport, TransportError>)
        ensures
            match tls_layer(tls, shaping) {
                Ok(model) => made matches Ok(layers) && layers.tls@ == model && layers.framing
                    == transport,
                Err(fault) => made matches Err(error) && error.message@ == fault,
            },
    {
        let config = match tls {
            None => return Ok(LayeredTransport { tls: TlsLayer::Plain, framing: transport }),
            Some(config) => config,
        };
        if !config.enabled {
            return Ok(LayeredTransport { tls: TlsLayer::Plain, framing: transport });
        }
        if !shaping && config.fingerprint.is_some() {
            return Err(
                TransportError::new(
                    "TLS fingerprint shaping requires the `fingerprint` build feature",
                ),
            );
        }
        if config.public_key_pins.len() != 0 {
            if config.reality.is_some() || config.fingerprint.is_some() {
                return Err(
                    TransportError::new(
                        "TLS public-key pinning cannot be combined with REALITY or fingerprint shaping",
                    ),
                );
            }
            return match new_pinned(&config) {
                Ok(tls) => Ok(LayeredTransport { tls, framing: transport }),
                Err(error) => Err(error),
            };
        }
        if config.client_certificate_pem.is_some() != config.client_private_key_pem.is_some() {
            return Err(
                TransportError::new(
                    "TLS client certificate and private key must be configured together",
                ),
            );
        }
        Ok(LayeredTransport { tls: TlsLayer::Shaped(config), framing: transport })
    }
}

/// The public key information of a certificate; `None` where the bytes are no
/// certificate.
pub uninterp spec fn subject_public_key(der: Seq<u8>) -> Option<Seq<u8>>;

/// `x509_parser::parse_x509_certificate`: whether the bytes begin with a
/// certificate, and its SubjectPublicKeyInfo, are a function of the bytes.
#[verifier::external_body]
fn read_public_key(der: &[u8]) -> (key: Option<Vec<u8>>)
    ensures
        key is Some <==> subject_public_key(der@) is Some,
        key matches Some(bytes) ==> subject_public_key(der@) == Some(bytes@),
{
    match x509_parser::parse_x509_certificate(der) {
        Ok((_, certificate)) => Some(certificate.tbs_certificate.subject_pki.raw.to_vec()),
        Err(_) => None,
    }
}

/// Why a server's certificate is refused.
#[derive(Clone, Copy, Debug, PartialEq, Eq)]
pub enum PinFault {
    /// It cannot be read.
    BadEncoding,
    /// Its public key is none of those that are pinned.
    Mismatch,
}

impl PinFault {
    /// The text that goes with a key that is not pinned.
    pub fn message(&self) -> (text: String)
        ensures
            text@ == match *self {
                PinFault::BadEncoding => "certificate cannot be read"@,
                PinFault::Mismatch =>
                    "certificate SubjectPublicKeyInfo does not match any configured SHA-256 pin"@,
            },
    {
        match self {
            PinFault::BadEncoding => String::from("certificate cannot be read"),
            PinFault::Mismatch => String::from(
                "certificate SubjectPublicKeyInfo does not match any configured SHA-256 pin",
            ),
        }
    }
}

/// Whether a digest is among the pins.
pub open spec fn is_pinned(pins: Seq<[u8; 32]>, digest: Seq<u8>) -> bool {
    exists|i: int| 0 <= i < pins.len() && (#[trigger] pins[i])@ == digest
}

/// What the check of a public key against the pins gives.
pub open spec fn pin_check(public_key: Option<Seq<u8>>, pins: Seq<[u8; 32]>) -> Result<
    (),
    PinFault,
> {
    match public_key {
        None => Err(PinFault::BadEncoding),
        Some(key) => if pins.len() == 0 || is_pinned(pins, sha256_digest(key)) {
            Ok(())
        } else {
            Err(PinFault::Mismatch)
        },
    }
}

/// Compares the digest of a public key with the pins; without pins every key is
/// accepted.
pub fn check_pins(public_key: &Option<Vec<u8>>, pins: &Vec<[u8; 32]>) -> (done: Result<
    (),
    PinFault,
>)
    ensures
        done == match *public_key {
            None => Err::<(), PinFault>(PinFault::BadEncoding),
            Some(key) => if pins@.len() == 0 || is_pinned(pins@, sha256_digest(key@)) {
                Ok(())
            } else {
                Err(PinFault::Mismatch)
            },
        },
        done == pin_check(bytes_view(*public_key), pins@),
{
    match public_key {
        None => Err(PinFault::BadEncoding),
        Some(key) => {
            let digest = sha256(key.as_slice());
            if pins.len() == 0 {
                return Ok(());
            }
            for i in 0..pins.len()
                invariant
                    digest@ == sha256_digest(key@),
                    *public_key == Some(*key),
                    forall|j: int| 0 <= j < i ==> (#[trigger] pins@[j])@ != digest@,
            {
                if same_bytes(&pins[i], &digest) {
                    assert(pins@[i as int]@ == digest@);
                    return Ok(());
                }
            }
            Err(PinFault::Mismatch)
        },
    }
}

/// Checks a server's certificate against the pins.
pub fn verify_server_cert(end_entity: &[u8], pins: &Vec<[u8; 32]>) -> (done: Result<(), PinFault>)
    ensures
        done == match subject_public_key(end_entity@) {
            None => Err::<(), PinFault>(PinFault::BadEncoding),
            Some(key) => if pins@.len() == 0 || is_pinned(pins@, sha256_digest(key)) {
                Ok(())
            } else {
                Err(PinFault::Mismatch)
            },
        },
        done == pin_check(subject_public_key(end_entity@), pins@),
{
    let key = read_public_key(end_entity);
    check_pins(&key, pins)
}

/// A client is built where every authority is accepted, so is its ECH list where
/// it has one, and its certificate and key come together, can be read and belong
/// together. It checks the chain unless it was told not to, and offers its
/// protocols in their order.
pub proof fn law_client_parts(config: TlsLayerConfig)
    ensures
        parts_of(config) is Ok <==> {
            &&& forall|i: int|
                0 <= i < config.certificate_authorities_der@.len() ==> authority_error(
                    (#[trigger] config.certificate_authorities_der@[i])@,
                ) is None
            &&& config.ech_config matches Some(list) ==> ech_error(list@) is None
            &&& match (config.client_certificate_pem, config.client_private_key_pem) {
                (Some(certificate), Some(key)) => {
                    &&& pem_certificates(certificate@) is Ok
                    &&& pem_key(key@) matches Ok(Some((format, der)))
                    &&& identity_error(pem_certificates(certificate@)->Ok_0, format, der) is None
                },
                (None, None) => true,
                _ => false,
            }
        },
        parts_of(config) matches Ok(parts) ==> {
            &&& parts.verify_chain == !config.insecure
            &&& parts.alpn.len() == config.alpn@.len()
            &&& forall|i: int|
                0 <= i < config.alpn@.len() ==> #[trigger] parts.alpn[i] == utf8(config.alpn@[i]@)
            &&& parts.identity is Some <==> config.client_certificate_pem is Some
            &&& parts.pins == config.public_key_pins@
            &&& parts.ech is Some <==> config.ech_config is Some
            &&& parts.authorities.len() == config.certificate_authorities_der@.len()
        },
        parts_of(config) matches Ok(parts) ==> (parts.identity matches Some((
            certificates,
            format,
            der,
        )) ==> pem_certificates(config.client_certificate_pem->0@) == Ok::<
            Seq<Seq<u8>>,
            Seq<char>,
        >(certificates) && pem_key(config.client_private_key_pem->0@)->Ok_0 == Some((format, der))),
{
    lemma_authorities_accepted(byte_views(config.certificate_authorities_der@));
    let authorities = byte_views(config.certificate_authorities_der@);
    assert forall|i: int| 0 <= i < authorities.len() implies #[trigger] authorities[i]
        == config.certificate_authorities_der@[i]@ by {}
    if parts_of(config) is Ok {
        assert forall|i: int| 0 <= i < config.certificate_authorities_der@.len() implies
            authority_error((#[trigger] config.certificate_authorities_der@[i])@) is None by {
            assert(authorities[i] == config.certificate_authorities_der@[i]@);
        }
    }
}

proof fn lemma_authorities_accepted(authorities: Seq<Seq<u8>>)
    ensures
        authorities_fault(authorities) is None <==> forall|i: int|
            0 <= i < authorities.len() ==> authority_error(#[trigger] authorities[i]) is None,
    decreases authorities.len(),
{
    if authorities.len() > 0 {
        let rest = authorities.skip(1);
        lemma_authorities_accepted(rest);
        if authorities_fault(authorities) is None {
            assert forall|i: int| 0 <= i < authorities.len() implies authority_error(
                #[trigger] authorities[i],
            ) is None by {
                if i > 0 {
                    assert(rest[i - 1] == authorities[i]);
                }
            }
        }
        if forall|i: int|
            0 <= i < authorities.len() ==> authority_error(#[trigger] authorities[i]) is None {
            assert(authority_error(authorities[0]) is None);
            assert forall|i: int| 0 <= i < rest.len() implies authority_error(
                #[trigger] rest[i],
            ) is None by {
                assert(rest[i] == authorities[i + 1]);
            }
        }
    }
}

/// A transport has no TLS where none is enabled. With pins it has a client that
/// checks them, asks for the configured name, and imitates no one; without pins
/// it has the client that was configured. A fingerprint needs shaping.
pub proof fn law_layers(config: TlsLayerConfig, shaping: bool)
    ensures
        tls_layer(None, shaping) == Ok::<TlsLayerModel, Seq<char>>(TlsLayerModel::Plain),
        !config.enabled ==> tls_layer(Some(config), shaping) == Ok::<TlsLayerModel, Seq<char>>(
            TlsLayerModel::Plain,
        ),
        config.enabled && config.fingerprint is Some && !shaping ==> tls_layer(
            Some(config),
            shaping,
        ) is Err,
        config.enabled && config.public_key_pins@.len() > 0 ==> {
            &&& tls_layer(Some(config), shaping) is Ok <==> {
                &&& config.reality is None
                &&& config.fingerprint is None
                &&& parts_of(config) is Ok
                &&& config.server_name matches Some(name) && server_name_error(name@) is None
            }
            &&& tls_layer(Some(config), shaping) matches Ok(layer) ==> layer
                == TlsLayerModel::Pinned(parts_of(config)->Ok_0, config.server_name->0@)
        },
        config.enabled && config.public_key_pins@.len() == 0 && (config.fingerprint is None
            || shaping) ==> (tls_layer(Some(config), shaping) == (if (config.client_certificate_pem
            is Some) == (config.client_private_key_pem is Some) {
            Ok::<TlsLayerModel, Seq<char>>(TlsLayerModel::Shaped(config))
        } else {
            Err("TLS client certificate and private key must be configured together"@)
        })),
{
}

/// A digest is pinned where it is one of the pins.
pub proof fn law_pinned(pins: Seq<[u8; 32]>, digest: Seq<u8>, at: int)
    requires
        0 <= at < pins.len(),
    ensures
        pins[at]@ == digest ==> is_pinned(pins, digest),
        !is_pinned(pins, digest) ==> pins[at]@ != digest,
        is_pinned(pins, digest) ==> exists|i: int|
            0 <= i < pins.len() && (#[trigger] pins[i])@ == digest,
        !is_pinned(Seq::empty(), digest),
{
}

/// A server whose public key cannot be read is refused. Without pins every other
/// is accepted; with pins only one whose key has a SHA-256 digest among them.
pub proof fn law_pin_check(key: Seq<u8>, pins: Seq<[u8; 32]>, at: int)
    requires
        0 <= at < pins.len(),
    ensures
        pin_check(None, pins) == Err::<(), PinFault>(PinFault::BadEncoding),
        pin_check(Some(key), Seq::empty()) == Ok::<(), PinFault>(()),
        sha256_digest(key) == pins[at]@ ==> pin_check(Some(key), pins) == Ok::<(), PinFault>(()),
        (forall|i: int| 0 <= i < pins.len() ==> (#[trigger] pins[i])@ != sha256_digest(key))
            ==> pin_check(Some(key), pins) == Err::<(), PinFault>(PinFault::Mismatch),
{
}

} // verus!
