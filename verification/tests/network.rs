use macmush::error::MushError;
use macmush::network::{TcpClientBuilder, TlsClientBuilder};
use std::time::Duration;

#[test]
fn tcp_builder_defaults_and_settings() {
    let b = TcpClientBuilder::new("mud.example.com", 4000);
    assert_eq!(b.host, "mud.example.com");
    assert_eq!(b.port, 4000);
    assert_eq!(b.timeout_secs, 30);
    assert_eq!(b.read_buffer_size, 8192);
    let b = b.timeout(Duration::from_secs(10)).read_buffer_size(4096);
    assert_eq!(b.timeout_secs, 10);
    assert_eq!(b.read_buffer_size, 4096);
}

#[test]
fn tls_builder_defaults_and_settings() {
    let b = TlsClientBuilder::new("secure.mud", 4443);
    assert!(!b.use_tls);
    assert!(b.verify_certificates);
    assert_eq!(b.timeout_secs, 30);
    let b = b.use_tls(true).verify_certificates(false).timeout(Duration::from_millis(2500)).read_buffer_size(1);
    assert!(b.use_tls);
    assert!(!b.verify_certificates);
    assert_eq!(b.timeout_secs, 2);
    assert_eq!(b.read_buffer_size, 1);
}

#[test]
fn tls_server_name_is_checked() {
    assert!(macmush::network::tls_server_name_check("mud.example.com").is_ok());
    assert!(macmush::network::tls_server_name_check("127.0.0.1").is_ok());
    match macmush::network::tls_server_name_check("bad host!") {
        Err(MushError::TlsError(m)) => assert!(m.starts_with("Invalid hostname for TLS: ")),
        other => panic!("unexpected {:?}", other),
    }
}
