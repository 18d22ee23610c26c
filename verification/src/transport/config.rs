//! The configuration of transport layers.
use vstd::prelude::*;

verus! {

/// A failure of a transport.
#[derive(Clone, Debug, PartialEq, Eq)]
pub struct TransportError {
    pub message: String,
}

impl TransportError {
    pub fn new(message: impl Into<String>) -> (error: TransportError)
        ensures
            call_ensures(Into::<String>::into, (message,), error.message),
    {
        TransportError { message: message.into() }
    }
}

/// TLS as a layer of a transport.
#[derive(Clone, Debug, Default, PartialEq, Eq)]
pub struct TlsLayerConfig {
    pub enabled: bool,
    pub server_name: Option<String>,
    pub insecure: bool,
    pub alpn: Vec<String>,
    pub client_certificate_pem: Option<Vec<u8>>,
    pub client_private_key_pem: Option<Vec<u8>>,
    pub certificate_authorities_der: Vec<Vec<u8>>,
    pub fingerprint: Option<String>,
    pub ech_config: Option<Vec<u8>>,
    pub reality: Option<RealityLayerConfig>,
    pub public_key_pins: Vec<[u8; 32]>,
}

/// REALITY as a variant of the TLS layer.
#[derive(Clone, Debug, PartialEq, Eq)]
pub struct RealityLayerConfig {
    pub public_key: [u8; 32],
    pub short_id: [u8; 8],
    pub support_x25519_mlkem768: bool,
}

/// A framing above TCP or TLS.
#[derive(Clone, Debug, PartialEq, Eq)]
pub enum V2RayTransportConfig {
    WebSocket {
        path: String,
        host: Option<String>,
        headers: Vec<(String, String)>,
        max_early_data: usize,
        early_data_header: Option<String>,
    },
    Http2 { path: String, hosts: Vec<String> },
    Grpc { service_name: String, authority: String },
    HttpUpgrade { path: String, host: Option<String>, headers: Vec<(String, String)> },
}

} // verus!
