use macmush::world_api::WorldApi;

#[test]
fn test_world_api_creation() {
    let api = WorldApi::new("test-world");
    assert_eq!(api.world_id(), "test-world");
}

#[test]
fn test_variable_operations() {
    let mut api = WorldApi::new("test-world");

    api.set_variable("test_key", "test_value");

    let value = api.get_variable("test_key");
    assert_eq!(value, Some("test_value".to_string()));

    let deleted = api.delete_variable("test_key");
    assert_eq!(deleted, Some("test_value".to_string()));

    let value = api.get_variable("test_key");
    assert_eq!(value, None);
}

#[test]
fn world_api_test_get_all_variables() {
    let mut api = WorldApi::new("test-world");

    api.set_variable("key1", "value1");
    api.set_variable("key2", "value2");
    api.set_variable("key3", "value3");

    let all_vars = api.get_all_variables();
    assert_eq!(all_vars.len(), 3);
    assert_eq!(all_vars.get("key1"), Some(&"value1".to_string()));
    assert_eq!(all_vars.get("key2"), Some(&"value2".to_string()));
    assert_eq!(all_vars.get("key3"), Some(&"value3".to_string()));
}

#[test]
fn world_api_queue_keeps_order_and_drain_empties() {
    let mut api = WorldApi::new("w");
    api.queue_command("north");
    api.queue_command("look");
    assert_eq!(api.get_command_queue(), vec!["north".to_string(), "look".to_string()]);
    assert_eq!(api.drain_command_queue(), vec!["north".to_string(), "look".to_string()]);
    assert!(api.get_command_queue().is_empty());
    api.queue_command("x");
    api.clear_command_queue();
    assert!(api.drain_command_queue().is_empty());
}

#[test]
fn world_api_info() {
    let api = WorldApi::new("w1");
    assert_eq!(api.get_info(1), Some("w1".to_string()));
    assert_eq!(api.get_info(3), Some("4000".to_string()));
    assert_eq!(api.get_info(20), Some("MACMush".to_string()));
    assert_eq!(api.get_info(-5), None);
}

#[test]
fn world_api_variable_list() {
    let mut api = WorldApi::new("w");
    api.set_variable("a", "1");
    api.set_variable("b", "2");
    let mut names = api.get_variable_list();
    names.sort();
    assert_eq!(names, vec!["a".to_string(), "b".to_string()]);
}
