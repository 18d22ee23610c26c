//! The configuration of a VMess server.
use crate::crypto::{check_server_name, md5_digest, server_name_error};
use crate::outbound::tls_name::{chosen_name, name_view};
use crate::outbound::vmess::header::{
    address_fault, auto_security, cmd_key, magic, seal_with, sealed_from, HeaderDraw, Metadata,
    SealedHeader, Security,
};
use crate::text::{chars_of, join, lower, lower_chars, same_text, string_of};
use crate::transport::config::TlsLayerConfig;
use crate::transport::layered::{parts_of, rustls_client_config, ClientParts, PartsModel};
use crate::types::{Endpoint, EndpointModel, HostModel, OutboundError};
use vstd::prelude::*;

verus! {

/// A configuration that cannot be used.
#[derive(Clone, Debug, PartialEq, Eq)]
pub struct VmessConfigError {
    pub message: String,
}

/// A VMess server and how to ask it for a stream.
pub struct VmessOutbound {
    pub server: Endpoint,
    pub command_key: [u8; 16],
    pub security: Security,
    /// The name that TLS expects and what its client is built from, where TLS
    /// is used.
    pub tls: Option<(String, ClientParts)>,
}

/// The cipher that a configuration names, in any case of letters; `None` for a
/// name that is not known.
pub open spec fn security_named(name: Seq<char>, hardware_aes: bool) -> Option<Security> {
    let lowered = lower(name);
    if lowered == "auto"@ {
        Some(
            if hardware_aes {
                Security::Aes128Gcm
            } else {
                Security::ChaCha20Poly1305
            },
        )
    } else if lowered == "aes-128-gcm"@ || lowered == "aes128gcm"@ {
        Some(Security::Aes128Gcm)
    } else if lowered == "chacha20-poly1305"@ || lowered == "chacha20poly1305"@ {
        Some(Security::ChaCha20Poly1305)
    } else if lowered == "none"@ {
        Some(Security::Plain)
    } else {
        None
    }
}

/// The name that stands in a configuration, or the default.
pub open spec fn named(security: Option<&str>) -> Seq<char> {
    match security {
        Some(name) => name@,
        None => "auto"@,
    }
}

/// Says what was wrong with a transport of VMess.
pub fn config_error(message: &str) -> (error: VmessConfigError)
    ensures
        error.message@ == "VMess "@ + message@,
{
    VmessConfigError { message: join("VMess ", message) }
}

/// The TLS of a server, `None` where it is not used, or why it cannot be used.
pub open spec fn tls_model(host_text: Seq<char>, tls: TlsLayerConfig) -> Result<
    Option<(Seq<char>, PartsModel)>,
    Seq<char>,
> {
    let name = chosen_name(name_view(tls.server_name), host_text);
    if !tls.enabled {
        Ok(None)
    } else {
        match server_name_error(name) {
            Some(error) => Err("VMess "@ + ("TLS server_name: "@ + error)),
            None => match parts_of(tls) {
                Err(fault) => Err("VMess "@ + fault),
                Ok(parts) => Ok(Some((name, parts))),
            },
        }
    }
}

/// What a checked TLS holds.
pub open spec fn tls_view(tls: Option<(String, ClientParts)>) -> Option<(Seq<char>, PartsModel)> {
    match tls {
        Some((name, parts)) => Some((name@, parts@)),
        None => None,
    }
}

/// Checks the TLS of a server; `host_text` is the server's host in text form.
pub fn tls_parts(host_text: &str, tls: &TlsLayerConfig) -> (parts: Result<
    Option<(String, ClientParts)>,
    VmessConfigError,
>)
    ensures
        match tls_model(host_text@, *tls) {
            Ok(model) => parts matches Ok(parts) && tls_view(parts) == model,
            Err(fault) => parts matches Err(error) && error.message@ == fault,
        },
{
    if !tls.enabled {
        return Ok(None);
    }
    let name: String = match &tls.server_name {
        Some(name) => name.as_str().to_owned(),
        None => host_text.to_owned(),
    };
    match check_server_name(name.as_str()) {
        Ok(()) => {},
        Err(error) => {
            return Err(config_error(join("TLS server_name: ", error.as_str()).as_str()));
        },
    }
    match rustls_client_config(tls) {
        Ok(parts) => Ok(Some((name, parts))),
        Err(error) => Err(config_error(error.message.as_str())),
    }
}

impl VmessOutbound {
    /// Checks a configuration; `host_text` is the server's host in text form.
    /// `hardware_aes` says whether the processor has AES instructions.
    pub fn new(
        server: Endpoint,
        host_text: &str,
        uuid: &[u8; 16],
        security: Option<&str>,
        hardware_aes: bool,
        tls: &TlsLayerConfig,
    ) -> (outbound: Result<VmessOutbound, VmessConfigError>)
        ensures
            match security_named(named(security), hardware_aes) {
                Some(cipher) => match tls_model(host_text@, *tls) {
                    Ok(model) => {
                        &&& outbound matches Ok(outbound)
                        &&& outbound.server == server
                        &&& outbound.security == cipher
                        &&& outbound.command_key@ == md5_digest(uuid@ + magic())
                        &&& tls_view(outbound.tls) == model
                    },
                    Err(fault) => outbound matches Err(error) && error.message@ == fault,
                },
                None => {
                    &&& outbound matches Err(error)
                    &&& error.message@ == "unsupported VMess security `"@ + lower(named(security))
                        + "`"@
                },
            },
    {
        let name: &str = match security {
            Some(name) => name,
            None => "auto",
        };
        let letters = chars_of(name);
        let lowered = string_of(lower_chars(letters.as_slice()).as_slice());
        let value = lowered.as_str();
        let cipher: Security = if same_text(value, "auto") {
            auto_security(hardware_aes)
        } else if same_text(value, "aes-128-gcm") || same_text(value, "aes128gcm") {
            Security::Aes128Gcm
        } else if same_text(value, "chacha20-poly1305") || same_text(value, "chacha20poly1305") {
            Security::ChaCha20Poly1305
        } else if same_text(value, "none") {
            Security::Plain
        } else {
            let head = join("unsupported VMess security `", value);
            return Err(VmessConfigError { message: join(head.as_str(), "`") });
        };
        match tls_parts(host_text, tls) {
            Ok(tls) => Ok(
                VmessOutbound { server, command_key: cmd_key(uuid), security: cipher, tls },
            ),
            Err(error) => Err(error),
        }
    }

    /// The sealed header that asks the server for `target`, from what was drawn
    /// for it and the time.
    pub fn connect_protocol(
        &self,
        target: &Endpoint,
        is_udp: bool,
        draw: &HeaderDraw,
        now: u64,
    ) -> (header: Result<SealedHeader, OutboundError>)
        requires
            draw.padding.wf(),
        ensures
            match address_fault(destination_of(target@)) {
                None => header matches Ok(header) && sealed_from(
                    header,
                    self.command_key@,
                    self.security,
                    target@.host,
                    target@.port,
                    is_udp,
                    *draw,
                    now,
                ),
                Some(fault) => header matches Err(error) && error.message@ == fault,
            },
    {
        let metadata = Metadata::from_endpoint(target);
        assert(metadata.destination() == destination_of(target@));
        match seal_with(&self.command_key, self.security, &metadata, is_udp, draw, now) {
            Ok(header) => Ok(header),
            Err(message) => Err(OutboundError { message }),
        }
    }
}

/// The destination that an endpoint stands for: an empty name is none.
pub open spec fn destination_of(target: EndpointModel) -> Option<HostModel> {
    match target.host {
        HostModel::Domain(name) => if name.len() == 0 {
            None
        } else {
            Some(target.host)
        },
        HostModel::Ip(_) => Some(target.host),
    }
}

/// The names of ciphers, in whatever case: `auto` and no name leave the choice to
/// the processor.
pub proof fn law_ciphers(name: Seq<char>, hardware_aes: bool)
    ensures
        lower(name) == "auto"@ ==> security_named(name, hardware_aes) == Some(
            if hardware_aes {
                Security::Aes128Gcm
            } else {
                Security::ChaCha20Poly1305
            },
        ),
        lower(name) == "aes-128-gcm"@ || lower(name) == "aes128gcm"@ ==> security_named(
            name,
            hardware_aes,
        ) == Some(Security::Aes128Gcm),
        lower(name) == "chacha20-poly1305"@ || lower(name) == "chacha20poly1305"@
            ==> security_named(name, hardware_aes) == Some(Security::ChaCha20Poly1305),
        lower(name) == "none"@ ==> security_named(name, hardware_aes) == Some(Security::Plain),
        security_named(name, hardware_aes) is Some ==> lower(name) == "auto"@ || lower(name)
            == "aes-128-gcm"@ || lower(name) == "aes128gcm"@ || lower(name)
            == "chacha20-poly1305"@ || lower(name) == "chacha20poly1305"@ || lower(name)
            == "none"@,
        named(None) == "auto"@,
{
    reveal_strlit("auto");
    reveal_strlit("aes-128-gcm");
    reveal_strlit("aes128gcm");
    reveal_strlit("chacha20-poly1305");
    reveal_strlit("chacha20poly1305");
    reveal_strlit("none");
    assert("auto"@.len() == 4 && "auto"@[0] == 'a');
    assert("none"@.len() == 4 && "none"@[0] == 'n');
    assert("aes-128-gcm"@.len() == 11 && "aes128gcm"@.len() == 9);
    assert("chacha20-poly1305"@.len() == 17 && "chacha20poly1305"@.len() == 16);
}

/// Without TLS there is none. With it, the server is asked for under the
/// configured name or else its host, which has to be a name that a server can
/// have.
pub proof fn law_tls(host_text: Seq<char>, tls: TlsLayerConfig)
    ensures
        !tls.enabled ==> tls_model(host_text, tls) == Ok::<
            Option<(Seq<char>, PartsModel)>,
            Seq<char>,
        >(None),
        tls.enabled ==> {
            let name = match tls.server_name {
                Some(name) => name@,
                None => host_text,
            };
            &&& tls_model(host_text, tls) is Ok <==> server_name_error(name) is None && parts_of(
                tls,
            ) is Ok
            &&& tls_model(host_text, tls) matches Ok(found) ==> found == Some(
                (name, parts_of(tls)->Ok_0),
            )
        },
{
}

/// An endpoint stands for its host, unless that is a name without a letter.
pub proof fn law_destination_of(target: EndpointModel)
    ensures
        destination_of(target) is None <==> target.host == HostModel::Domain(Seq::empty()),
        destination_of(target) matches Some(host) ==> host == target.host,
{
    if let HostModel::Domain(name) = target.host {
        if name.len() == 0 {
            assert(name =~= Seq::empty());
        }
    }
}

} // verus!
