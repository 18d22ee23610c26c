//! The name that a TLS client expects of its server.
use crate::crypto::{check_server_name, server_name_error};
use crate::text::join;
use vstd::prelude::*;

verus! {

/// What an optional string holds.
pub open spec fn name_view(name: Option<String>) -> Option<Seq<char>> {
    match name {
        Some(name) => Some(name@),
        None => None,
    }
}

/// The configured name, else the server's host.
pub open spec fn chosen_name(configured: Option<Seq<char>>, host_text: Seq<char>) -> Seq<char> {
    match configured {
        Some(name) => name,
        None => host_text,
    }
}

/// What is said of a name that TLS does not accept.
pub open spec fn server_name_fault(label: Seq<char>, name: Seq<char>) -> Option<Seq<char>> {
    match server_name_error(name) {
        Some(error) => Some("invalid "@ + label + " TLS server name `"@ + name + "`: "@ + error),
        None => None,
    }
}

/// Picks the server name and has TLS check it.
pub fn tls_server_name(label: &str, configured: &Option<String>, host_text: &str) -> (name: Result<
    String,
    String,
>)
    ensures
        ({
            let chosen = chosen_name(name_view(*configured), host_text@);
            match server_name_fault(label@, chosen) {
                None => name matches Ok(name) && name@ == chosen,
                Some(fault) => name matches Err(message) && message@ == fault,
            }
        }),
{
    let chosen: String = match configured {
        Some(name) => name.as_str().to_owned(),
        None => host_text.to_owned(),
    };
    match check_server_name(chosen.as_str()) {
        Ok(()) => Ok(chosen),
        Err(error) => {
            let mut message = join("invalid ", label);
            message.append(" TLS server name `");
            message.append(chosen.as_str());
            message.append("`: ");
            message.append(error.as_str());
            Err(message)
        },
    }
}

} // verus!
