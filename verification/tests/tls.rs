use std::path::PathBuf;

use update_delivery_system::errors::UdsError;
use update_delivery_system::tls::{listener_transport, ListenerTransport, TlsConfig, TlsMode, ACME_NOT_SERVED};

#[test]
fn tls_off_serves_plain_http() {
    let tls = TlsConfig { mode: TlsMode::Off, cert_path: None, key_path: None };
    assert!(matches!(listener_transport(tls), Ok(ListenerTransport::Plain)));
}

#[test]
fn file_mode_serves_https_from_the_configured_files() {
    let tls = TlsConfig {
        mode: TlsMode::Files,
        cert_path: Some(PathBuf::from("/etc/uds/cert.pem")),
        key_path: Some(PathBuf::from("/etc/uds/key.pem")),
    };
    match listener_transport(tls) {
        Ok(ListenerTransport::TlsFromFiles { cert_path, key_path }) => {
            assert_eq!(cert_path, PathBuf::from("/etc/uds/cert.pem"));
            assert_eq!(key_path, PathBuf::from("/etc/uds/key.pem"));
        }
        _ => panic!("expected file-based TLS"),
    }
}

#[test]
fn acme_mode_is_refused_as_a_configuration_error() {
    let tls = TlsConfig { mode: TlsMode::Acme, cert_path: None, key_path: None };
    match listener_transport(tls) {
        Err(UdsError::Config(message)) => {
            assert_eq!(message, ACME_NOT_SERVED);
            assert!(message.starts_with("ACME mode is validated in configuration"));
        }
        _ => panic!("expected a configuration error"),
    }
}
