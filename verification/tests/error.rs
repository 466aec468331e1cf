use macmush::error::MushError;

#[test]
fn test_connection_failed_error() {
    let io_err = std::io::Error::new(std::io::ErrorKind::ConnectionRefused, "refused");
    let err = MushError::ConnectionFailed { host: "localhost".to_string(), port: 4000, reason: io_err.to_string() };

    assert!(err.message().contains("localhost:4000"));
    assert!(err.message().contains("refused"));
}

#[test]
fn test_connection_timeout_error() {
    let err = MushError::ConnectionTimeout { timeout_secs: 30 };
    assert!(err.message().contains("30 seconds"));
}

#[test]
fn test_invalid_regex_error() {
    let regex_err = regex::Regex::new("[").unwrap_err();
    let err = MushError::InvalidRegex { pattern: "[".to_string(), reason: regex_err.to_string() };

    assert!(err.message().contains("Invalid regex pattern"));
    assert!(err.message().contains("["));
}

#[test]
fn test_validation_error() {
    let err = MushError::ValidationError {
        field: "hostname".to_string(),
        reason: "contains invalid characters".to_string(),
    };

    assert!(err.message().contains("hostname"));
    assert!(err.message().contains("invalid characters"));
}

#[test]
fn test_command_too_long_error() {
    let err = MushError::CommandTooLong { length: 2000, max: 1024 };

    assert!(err.message().contains("2000"));
    assert!(err.message().contains("1024"));
}

fn example_function() -> Result<String, MushError> {
    Err(MushError::WorldNotFound { id: "test-world".to_string() })
}

#[test]
fn test_result_type_usage() {
    match example_function() {
        Ok(_) => panic!("Should have returned error"),
        Err(e) => assert!(matches!(e, MushError::WorldNotFound { .. })),
    }
}

#[test]
fn error_messages_exact() {
    assert_eq!(
        MushError::ConnectionFailed { host: "h".to_string(), port: 23, reason: "r".to_string() }.message(),
        "Failed to connect to h:23 - r"
    );
    assert_eq!(MushError::InvalidPort(0).message(), "Invalid port: 0 (must be 1-65535)");
    assert_eq!(MushError::NotConnected.message(), "Not connected to server");
    assert_eq!(MushError::CommandTooLong { length: 10, max: 5 }.message(), "Command too long: 10 bytes (max: 5)");
    assert_eq!(MushError::TriggerNotFound { name: "t".to_string() }.message(), "Trigger 't' not found");
}
