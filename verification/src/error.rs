//! Error values of the client. Causes that come from outside (I/O, TLS, the
//! regex engine, serialisers) are carried as their message text.
use vstd::prelude::*;
use crate::text::{decimal_string, push_str, u64_to_decimal, usize_to_decimal};

verus! {

/// Errors of the client's operations.
#[derive(Debug, Clone)]
pub enum MushError {
    /// Connecting to `host:port` failed; `reason` is the I/O error's text.
    ConnectionFailed { host: String, port: u16, reason: String },
    /// Connecting took longer than the timeout.
    ConnectionTimeout { timeout_secs: u64 },
    /// The remote host closed the connection.
    ConnectionClosed,
    /// An operation needed a connection and there was none.
    NotConnected,
    /// The TLS handshake failed.
    TlsError(String),
    /// (De)compression of the MCCP stream failed.
    CompressionError(String),
    /// An MXP sequence could not be parsed.
    MxpError(String),
    /// A Lua script failed.
    LuaError(String),
    /// A regular expression was refused; `reason` says why.
    InvalidRegex { pattern: String, reason: String },
    /// No trigger of that name.
    TriggerNotFound { name: String },
    /// No alias of that name.
    AliasNotFound { name: String },
    /// No timer of that name.
    TimerNotFound { name: String },
    /// No variable of that name.
    VariableNotFound { name: String },
    /// A world file could not be parsed.
    WorldFileParseError(String),
    /// A world file could not be written.
    WorldFileSerializeError(String),
    /// No world with that id.
    WorldNotFound { id: String },
    /// An input field holds an invalid value.
    ValidationError { field: String, reason: String },
    /// The host name is not acceptable.
    InvalidHostname(String),
    /// The port is not acceptable (it must be 1-65535).
    InvalidPort(u16),
    /// A command is longer than allowed.
    CommandTooLong { length: usize, max: usize },
    /// An I/O operation failed.
    IoError(String),
    /// A file does not exist.
    FileNotFound(String),
    /// JSON (de)serialisation failed.
    JsonError(String),
    /// XML processing failed.
    XmlError(String),
    /// Anything else.
    Internal(String),
}

/// The text that describes an error to a user.
pub open spec fn error_text(e: MushError) -> Seq<char> {
    match e {
        MushError::ConnectionFailed { host, port, reason } =>
            "Failed to connect to "@ + host@ + ":"@ + decimal_string(port as nat) + " - "@ + reason@,
        MushError::ConnectionTimeout { timeout_secs } =>
            "Connection timeout after "@ + decimal_string(timeout_secs as nat) + " seconds"@,
        MushError::ConnectionClosed => "Connection closed by remote host"@,
        MushError::NotConnected => "Not connected to server"@,
        MushError::TlsError(m) => "TLS handshake failed: "@ + m@,
        MushError::CompressionError(m) => "Compression error: "@ + m@,
        MushError::MxpError(m) => "MXP parse error: "@ + m@,
        MushError::LuaError(m) => "Lua script error: "@ + m@,
        MushError::InvalidRegex { pattern, reason } =>
            "Invalid regex pattern '"@ + pattern@ + "': "@ + reason@,
        MushError::TriggerNotFound { name } => "Trigger '"@ + name@ + "' not found"@,
        MushError::AliasNotFound { name } => "Alias '"@ + name@ + "' not found"@,
        MushError::TimerNotFound { name } => "Timer '"@ + name@ + "' not found"@,
        MushError::VariableNotFound { name } => "Variable '"@ + name@ + "' not found"@,
        MushError::WorldFileParseError(m) => "Failed to parse world file: "@ + m@,
        MushError::WorldFileSerializeError(m) => "Failed to serialize world file: "@ + m@,
        MushError::WorldNotFound { id } => "World '"@ + id@ + "' not found"@,
        MushError::ValidationError { field, reason } =>
            "Invalid input for field '"@ + field@ + "': "@ + reason@,
        MushError::InvalidHostname(h) => "Invalid hostname: "@ + h@,
        MushError::InvalidPort(p) => "Invalid port: "@ + decimal_string(p as nat) + " (must be 1-65535)"@,
        MushError::CommandTooLong { length, max } =>
            "Command too long: "@ + decimal_string(length as nat) + " bytes (max: "@ + decimal_string(max as nat) + ")"@,
        MushError::IoError(m) => "IO error: "@ + m@,
        MushError::FileNotFound(m) => "File not found: "@ + m@,
        MushError::JsonError(m) => "JSON serialization error: "@ + m@,
        MushError::XmlError(m) => "XML error: "@ + m@,
        MushError::Internal(m) => "Internal error: "@ + m@,
    }
}

impl MushError {
    /// The message that describes this error.
    pub fn message(&self) -> (s: String)
        ensures
            s@ == error_text(*self),
    {
        let mut s = String::new();
        match self {
            MushError::ConnectionFailed { host, port, reason } => {
                push_str(&mut s, "Failed to connect to ");
                push_str(&mut s, host.as_str());
                push_str(&mut s, ":");
                let d = u64_to_decimal(*port as u64);
                push_str(&mut s, d.as_str());
                push_str(&mut s, " - ");
                push_str(&mut s, reason.as_str());
            },
            MushError::ConnectionTimeout { timeout_secs } => {
                push_str(&mut s, "Connection timeout after ");
                let d = u64_to_decimal(*timeout_secs);
                push_str(&mut s, d.as_str());
                push_str(&mut s, " seconds");
            },
            MushError::ConnectionClosed => push_str(&mut s, "Connection closed by remote host"),
            MushError::NotConnected => push_str(&mut s, "Not connected to server"),
            MushError::TlsError(m) => {
                push_str(&mut s, "TLS handshake failed: ");
                push_str(&mut s, m.as_str());
            },
            MushError::CompressionError(m) => {
                push_str(&mut s, "Compression error: ");
                push_str(&mut s, m.as_str());
            },
            MushError::MxpError(m) => {
                push_str(&mut s, "MXP parse error: ");
                push_str(&mut s, m.as_str());
            },
            MushError::LuaError(m) => {
                push_str(&mut s, "Lua script error: ");
                push_str(&mut s, m.as_str());
            },
            MushError::InvalidRegex { pattern, reason } => {
                push_str(&mut s, "Invalid regex pattern '");
                push_str(&mut s, pattern.as_str());
                push_str(&mut s, "': ");
                push_str(&mut s, reason.as_str());
            },
            MushError::TriggerNotFound { name } => {
                push_str(&mut s, "Trigger '");
                push_str(&mut s, name.as_str());
                push_str(&mut s, "' not found");
            },
            MushError::AliasNotFound { name } => {
                push_str(&mut s, "Alias '");
                push_str(&mut s, name.as_str());
                push_str(&mut s, "' not found");
            },
            MushError::TimerNotFound { name } => {
                push_str(&mut s, "Timer '");
                push_str(&mut s, name.as_str());
                push_str(&mut s, "' not found");
            },
            MushError::VariableNotFound { name } => {
                push_str(&mut s, "Variable '");
                push_str(&mut s, name.as_str());
                push_str(&mut s, "' not found");
            },
            MushError::WorldFileParseError(m) => {
                push_str(&mut s, "Failed to parse world file: ");
                push_str(&mut s, m.as_str());
            },
            MushError::WorldFileSerializeError(m) => {
                push_str(&mut s, "Failed to serialize world file: ");
                push_str(&mut s, m.as_str());
            },
            MushError::WorldNotFound { id } => {
                push_str(&mut s, "World '");
                push_str(&mut s, id.as_str());
                push_str(&mut s, "' not found");
            },
            MushError::ValidationError { field, reason } => {
                push_str(&mut s, "Invalid input for field '");
                push_str(&mut s, field.as_str());
                push_str(&mut s, "': ");
                push_str(&mut s, reason.as_str());
            },
            MushError::InvalidHostname(h) => {
                push_str(&mut s, "Invalid hostname: ");
                push_str(&mut s, h.as_str());
            },
            MushError::InvalidPort(p) => {
                push_str(&mut s, "Invalid port: ");
                let d = u64_to_decimal(*p as u64);
                push_str(&mut s, d.as_str());
                push_str(&mut s, " (must be 1-65535)");
            },
            MushError::CommandTooLong { length, max } => {
                push_str(&mut s, "Command too long: ");
                let d = usize_to_decimal(*length);
                push_str(&mut s, d.as_str());
                push_str(&mut s, " bytes (max: ");
                let d2 = usize_to_decimal(*max);
                push_str(&mut s, d2.as_str());
                push_str(&mut s, ")");
            },
            MushError::IoError(m) => {
                push_str(&mut s, "IO error: ");
                push_str(&mut s, m.as_str());
            },
            MushError::FileNotFound(m) => {
                push_str(&mut s, "File not found: ");
                push_str(&mut s, m.as_str());
            },
            MushError::JsonError(m) => {
                push_str(&mut s, "JSON serialization error: ");
                push_str(&mut s, m.as_str());
            },
            MushError::XmlError(m) => {
                push_str(&mut s, "XML error: ");
                push_str(&mut s, m.as_str());
            },
            MushError::Internal(m) => {
                push_str(&mut s, "Internal error: ");
                push_str(&mut s, m.as_str());
            },
        }
        assert(s@ =~= error_text(*self));
        s
    }
}

} // verus!
