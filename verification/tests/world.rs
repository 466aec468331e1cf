use macmush::error::MushError;
use macmush::world::World;

#[test]
fn test_create_world_with_valid_config() {
    let world = World::new("Test MUD", "mud.example.com", 4000);

    assert!(world.is_ok(), "Should create world with valid config");
    let world = world.unwrap();
    assert_eq!(world.name, "Test MUD");
    assert_eq!(world.host, "mud.example.com");
    assert_eq!(world.port, 4000);
    assert_eq!(world.timeout_secs, 30);
    assert!(!world.auto_connect);
    assert!(!world.use_tls);
}

#[test]
fn test_validate_empty_name() {
    let result = World::new("", "mud.example.com", 4000);
    assert!(result.is_err(), "Should reject empty name");
    assert!(matches!(result, Err(MushError::ValidationError { .. })), "Should return ValidationError");
}

#[test]
fn test_validate_whitespace_only_name() {
    let result = World::new("   ", "mud.example.com", 4000);
    assert!(result.is_err(), "Should reject whitespace-only name");
}

#[test]
fn test_validate_empty_host() {
    let result = World::new("Test MUD", "", 4000);
    assert!(result.is_err(), "Should reject empty host");
    assert!(matches!(result, Err(MushError::ValidationError { .. })), "Should return ValidationError");
}

#[test]
fn test_validate_invalid_hostname() {
    let result = World::new("Test MUD", "invalid..host..name", 4000);
    assert!(result.is_err(), "Should reject invalid hostname");
}

#[test]
fn test_validate_port_zero() {
    let result = World::new("Test MUD", "mud.example.com", 0);
    assert!(result.is_err(), "Should reject port 0");
    assert!(matches!(result, Err(MushError::InvalidPort(_))), "Should return InvalidPort error");
}

#[test]
fn world_test_builder_pattern() {
    let world = World::builder("Test MUD", "mud.example.com", 4000)
        .description("A test MUD world")
        .auto_connect(true)
        .timeout_secs(60)
        .use_tls(true)
        .build();

    assert!(world.is_ok(), "Builder should create valid world");
    let world = world.unwrap();
    assert_eq!(world.name, "Test MUD");
    assert_eq!(world.description, Some("A test MUD world".to_string()));
    assert!(world.auto_connect);
    assert_eq!(world.timeout_secs, 60);
    assert!(world.use_tls);
}

#[test]
fn test_builder_with_custom_id() {
    let id = uuid::Uuid::new_v4().as_u128();
    let world = World::builder("Test MUD", "mud.example.com", 4000).id(id).build().unwrap();
    assert_eq!(world.id, id);
}

#[test]
fn test_validate_ipv4_address() {
    let world = World::new("Test MUD", "192.168.1.100", 4000);
    assert!(world.is_ok(), "Should accept IPv4 addresses");
}

#[test]
fn test_validate_localhost() {
    let world = World::new("Test MUD", "localhost", 4000);
    assert!(world.is_ok(), "Should accept localhost");
}

#[test]
fn test_validate_high_port() {
    let world = World::new("Test MUD", "mud.example.com", 65535);
    assert!(world.is_ok(), "Should accept port 65535");
}

#[test]
fn test_clone_world() {
    let world = World::new("Test MUD", "mud.example.com", 4000).unwrap();
    let cloned = world.duplicate();

    assert_eq!(cloned.id, world.id);
    assert_eq!(cloned.name, world.name);
    assert_eq!(cloned.host, world.host);
    assert_eq!(cloned.port, world.port);
}

#[test]
fn world_validation_messages() {
    let e = World::new("  ", "h", 1).unwrap_err();
    assert_eq!(e.message(), "Invalid input for field 'name': Name cannot be empty or whitespace only");
    let e = World::new("n", " ", 1).unwrap_err();
    assert_eq!(e.message(), "Invalid input for field 'host': Host cannot be empty");
    let e = World::new("n", ".bad", 1).unwrap_err();
    assert_eq!(e.message(), "Invalid hostname: .bad");
    let e = World::new("n", "good", 0).unwrap_err();
    assert_eq!(e.message(), "Invalid port: 0 (must be 1-65535)");
}

#[test]
fn world_host_with_trailing_dot_is_refused() {
    assert!(matches!(World::new("n", "mud.example.", 23), Err(MushError::InvalidHostname(_))));
}
