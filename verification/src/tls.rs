//! How a UDS listener is started: plain HTTP, or HTTPS with a certificate
//! and key read from PEM files.
//!
//! Every public, admin and fleet listener goes through the same decision, so
//! all of them apply the same transport behavior.

use std::path::PathBuf;

use vstd::prelude::*;

use crate::errors::UdsError;

verus! {

#[verifier::external_type_specification]
#[verifier::external_body]
pub struct ExPathBuf(PathBuf);

/// How a listener terminates TLS.
#[derive(Clone, Copy, PartialEq, Eq, Structural, Debug)]
pub enum TlsMode {
    /// Plain HTTP; TLS, if any, ends at a load balancer.
    Off,
    /// HTTPS with the certificate and key read from PEM files.
    Files,
    /// Certificates obtained through ACME (accepted by the configuration,
    /// not served yet).
    Acme,
}

/// Listener TLS settings; with `Files`, both paths are set.
pub struct TlsConfig {
    pub mode: TlsMode,
    pub cert_path: Option<PathBuf>,
    pub key_path: Option<PathBuf>,
}

/// What the listener binds.
pub enum ListenerTransport {
    /// Plain HTTP.
    Plain,
    /// HTTPS from these PEM files.
    TlsFromFiles { cert_path: PathBuf, key_path: PathBuf },
}

/// The refusal for ACME mode.
pub const ACME_NOT_SERVED: &'static str = "ACME mode is validated in configuration but not wired into the server runtime yet; use tls.mode = \"files\" or terminate TLS at a load balancer for now";

/// The transport of a listener with these TLS settings: plain HTTP when TLS
/// is off, HTTPS from the configured PEM files in file mode, and a
/// configuration error for ACME, which the runtime does not serve.
pub fn listener_transport(tls: TlsConfig) -> (r: Result<ListenerTransport, UdsError>)
    requires
        tls.mode == TlsMode::Files ==> tls.cert_path is Some && tls.key_path is Some,
    ensures
        tls.mode == TlsMode::Off ==> r matches Ok(ListenerTransport::Plain),
        tls.mode == TlsMode::Files ==> (r matches Ok(ListenerTransport::TlsFromFiles { cert_path, key_path })
            && Some(cert_path) == tls.cert_path && Some(key_path) == tls.key_path),
        tls.mode == TlsMode::Acme ==> (r matches Err(UdsError::Config(m)) && m@ == ACME_NOT_SERVED@),
{
    match tls.mode {
        TlsMode::Off => Ok(ListenerTransport::Plain),
        TlsMode::Files => match (tls.cert_path, tls.key_path) {
            (Some(cert_path), Some(key_path)) => Ok(ListenerTransport::TlsFromFiles { cert_path, key_path }),
            _ => {
                assert(false);
                Ok(ListenerTransport::Plain)
            },
        },
        TlsMode::Acme => Err(UdsError::Config(String::from_str(ACME_NOT_SERVED))),
    }
}

} // verus!
