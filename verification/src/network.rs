//! Connection settings of the TCP and TLS clients. The sockets, the TLS
//! handshake and the reads and writes themselves are I/O, done outside.
use vstd::prelude::*;
use std::time::Duration;
use crate::error::MushError;
use crate::text::{concat_str, to_owned_string};

verus! {

/// Default connection timeout, in seconds.
pub const DEFAULT_CONNECT_TIMEOUT_SECS: u64 = 30;

/// Default size of the read buffer, in bytes.
pub const DEFAULT_READ_BUFFER_SIZE: usize = 8192;

/// The whole seconds of a duration, as `Duration::as_secs` gives them (the
/// fractional part dropped).
pub uninterp spec fn duration_whole_seconds(d: Duration) -> u64;

/// `Duration::as_secs`: the whole seconds of a duration.
#[verifier::external_body]
fn whole_seconds(d: Duration) -> (s: u64)
    ensures
        s == duration_whole_seconds(d),
{
    d.as_secs()
}

/// Settings of a plain TCP client.
#[derive(Debug)]
pub struct TcpClientBuilder {
    pub host: String,
    pub port: u16,
    pub timeout_secs: u64,
    pub read_buffer_size: usize,
}

impl TcpClientBuilder {
    /// Settings for `host:port` with a 30 s timeout and an 8 KiB buffer.
    pub fn new(host: &str, port: u16) -> (b: Self)
        ensures
            b.host@ == host@,
            b.port == port,
            b.timeout_secs == DEFAULT_CONNECT_TIMEOUT_SECS,
            b.read_buffer_size == DEFAULT_READ_BUFFER_SIZE,
    {
        TcpClientBuilder {
            host: to_owned_string(host),
            port,
            timeout_secs: DEFAULT_CONNECT_TIMEOUT_SECS,
            read_buffer_size: DEFAULT_READ_BUFFER_SIZE,
        }
    }

    /// Sets the connection timeout to the duration's whole seconds.
    pub fn timeout(self, duration: Duration) -> (b: Self)
        ensures
            b.host == self.host,
            b.port == self.port,
            b.read_buffer_size == self.read_buffer_size,
            b.timeout_secs == duration_whole_seconds(duration),
    {
        TcpClientBuilder { timeout_secs: whole_seconds(duration), ..self }
    }

    /// Sets the size of the read buffer.
    pub fn read_buffer_size(self, size: usize) -> (b: Self)
        ensures
            b == (TcpClientBuilder { read_buffer_size: size, ..self }),
    {
        TcpClientBuilder { read_buffer_size: size, ..self }
    }
}

/// Settings of a client that may use TLS.
#[derive(Debug)]
pub struct TlsClientBuilder {
    pub host: String,
    pub port: u16,
    pub use_tls: bool,
    pub timeout_secs: u64,
    pub read_buffer_size: usize,
    pub verify_certificates: bool,
}

impl TlsClientBuilder {
    /// Settings for `host:port`: plain TCP, a 30 s timeout, an 8 KiB buffer,
    /// certificates verified.
    pub fn new(host: &str, port: u16) -> (b: Self)
        ensures
            b.host@ == host@,
            b.port == port,
            !b.use_tls,
            b.timeout_secs == DEFAULT_CONNECT_TIMEOUT_SECS,
            b.read_buffer_size == DEFAULT_READ_BUFFER_SIZE,
            b.verify_certificates,
    {
        TlsClientBuilder {
            host: to_owned_string(host),
            port,
            use_tls: false,
            timeout_secs: DEFAULT_CONNECT_TIMEOUT_SECS,
            read_buffer_size: DEFAULT_READ_BUFFER_SIZE,
            verify_certificates: true,
        }
    }

    /// Turns TLS on or off.
    pub fn use_tls(self, enabled: bool) -> (b: Self)
        ensures
            b == (TlsClientBuilder { use_tls: enabled, ..self }),
    {
        TlsClientBuilder { use_tls: enabled, ..self }
    }

    /// Sets the connection timeout to the duration's whole seconds.
    pub fn timeout(self, duration: Duration) -> (b: Self)
        ensures
            b.host == self.host,
            b.port == self.port,
            b.use_tls == self.use_tls,
            b.read_buffer_size == self.read_buffer_size,
            b.verify_certificates == self.verify_certificates,
            b.timeout_secs == duration_whole_seconds(duration),
    {
        TlsClientBuilder { timeout_secs: whole_seconds(duration), ..self }
    }

    /// Sets the size of the read buffer.
    pub fn read_buffer_size(self, size: usize) -> (b: Self)
        ensures
            b == (TlsClientBuilder { read_buffer_size: size, ..self }),
    {
        TlsClientBuilder { read_buffer_size: size, ..self }
    }

    /// Turns certificate verification on or off.
    pub fn verify_certificates(self, enabled: bool) -> (b: Self)
        ensures
            b == (TlsClientBuilder { verify_certificates: enabled, ..self }),
    {
        TlsClientBuilder { verify_certificates: enabled, ..self }
    }
}

/// What `ServerName::try_from` says of a host name: `None` when it is a
/// valid DNS name or IP address, otherwise the error's message.
pub uninterp spec fn server_name_refusal(host: Seq<char>) -> Option<Seq<char>>;

/// `rustls::pki_types::ServerName::try_from`: `None` when the host is a
/// valid server name, otherwise the error's message.
#[verifier::external_body]
fn check_server_name(host: &str) -> (r: Option<String>)
    ensures
        match r {
            None => server_name_refusal(host@) is None,
            Some(m) => server_name_refusal(host@) == Some(m@),
        },
{
    match rustls::pki_types::ServerName::try_from(host.to_string()) {
        Ok(_) => None,
        Err(e) => Some(e.to_string()),
    }
}

/// The check of the host name before a TLS handshake: an error naming the
/// problem when the host is not a valid server name.
pub fn tls_server_name_check(host: &str) -> (r: Result<(), MushError>)
    ensures
        match server_name_refusal(host@) {
            None => r is Ok,
            Some(m) => r matches Err(e) && e matches MushError::TlsError(t) && t@ == "Invalid hostname for TLS: "@ + m,
        },
{
    match check_server_name(host) {
        None => Ok(()),
        Some(m) => Err(MushError::TlsError(concat_str("Invalid hostname for TLS: ", m.as_str()))),
    }
}

} // verus!
