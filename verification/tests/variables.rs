use macmush::text_map::StringMap;
use macmush::variables::{Variable, VariableManager};

#[test]
fn test_create_variable() {
    let var = Variable::new("health", "100");
    assert_eq!(var.name, "health");
    assert_eq!(var.value, "100");
}

#[test]
fn test_variable_normalized_name() {
    let var1 = Variable::new("Health", "100");
    let var2 = Variable::new("HEALTH", "100");
    let var3 = Variable::new("health", "100");

    assert_eq!(var1.normalized_name(), "health");
    assert_eq!(var2.normalized_name(), "health");
    assert_eq!(var3.normalized_name(), "health");
}

#[test]
fn test_set_and_get_variable() {
    let mut manager = VariableManager::new();
    manager.set_variable("player_name", "Alice");
    assert_eq!(manager.get_variable("player_name"), Some("Alice".to_string()));
}

#[test]
fn test_case_insensitive_lookup() {
    let mut manager = VariableManager::new();
    manager.set_variable("PlayerName", "Bob");
    assert_eq!(manager.get_variable("playername"), Some("Bob".to_string()));
    assert_eq!(manager.get_variable("PLAYERNAME"), Some("Bob".to_string()));
    assert_eq!(manager.get_variable("PlayerName"), Some("Bob".to_string()));
}

#[test]
fn test_update_existing_variable() {
    let mut manager = VariableManager::new();
    manager.set_variable("score", "100");
    assert_eq!(manager.get_variable("score"), Some("100".to_string()));
    manager.set_variable("score", "200");
    assert_eq!(manager.get_variable("score"), Some("200".to_string()));
    assert_eq!(manager.count(), 1);
}

#[test]
fn test_delete_variable() {
    let mut manager = VariableManager::new();
    manager.set_variable("temp", "value");
    assert!(manager.has_variable("temp"));
    let deleted = manager.delete_variable("temp");
    assert!(deleted, "Should successfully delete variable");
    assert!(!manager.has_variable("temp"));
    assert_eq!(manager.get_variable("temp"), None);
}

#[test]
fn test_delete_nonexistent_variable() {
    let mut manager = VariableManager::new();
    let deleted = manager.delete_variable("nonexistent");
    assert!(!deleted, "Should return false for nonexistent variable");
}

#[test]
fn test_has_variable() {
    let mut manager = VariableManager::new();
    assert!(!manager.has_variable("test"));
    manager.set_variable("test", "value");
    assert!(manager.has_variable("test"));
    assert!(manager.has_variable("TEST"));
}

#[test]
fn test_get_variable_list() {
    let mut manager = VariableManager::new();
    assert_eq!(manager.get_variable_list().len(), 0);
    manager.set_variable("var1", "value1");
    manager.set_variable("var2", "value2");
    manager.set_variable("var3", "value3");
    let list = manager.get_variable_list();
    assert_eq!(list.len(), 3);
    assert!(list.contains(&"var1".to_string()));
    assert!(list.contains(&"var2".to_string()));
    assert!(list.contains(&"var3".to_string()));
}

#[test]
fn variables_test_get_all_variables() {
    let mut manager = VariableManager::new();
    manager.set_variable("name", "Alice");
    manager.set_variable("age", "25");
    manager.set_variable("city", "Portland");
    let all = manager.get_all_variables();
    assert_eq!(all.len(), 3);
    assert_eq!(all.get("name"), Some(&"Alice".to_string()));
    assert_eq!(all.get("age"), Some(&"25".to_string()));
    assert_eq!(all.get("city"), Some(&"Portland".to_string()));
}

#[test]
fn test_clear_all() {
    let mut manager = VariableManager::new();
    manager.set_variable("var1", "value1");
    manager.set_variable("var2", "value2");
    manager.set_variable("var3", "value3");
    assert_eq!(manager.count(), 3);
    manager.clear_all();
    assert_eq!(manager.count(), 0);
    assert_eq!(manager.get_variable_list().len(), 0);
}

#[test]
fn test_count() {
    let mut manager = VariableManager::new();
    assert_eq!(manager.count(), 0);
    manager.set_variable("var1", "value1");
    assert_eq!(manager.count(), 1);
    manager.set_variable("var2", "value2");
    assert_eq!(manager.count(), 2);
    manager.delete_variable("var1");
    assert_eq!(manager.count(), 1);
}

#[test]
fn test_set_variables_batch() {
    let mut manager = VariableManager::new();
    let mut vars = StringMap::new();
    vars.insert("hp".to_string(), "100".to_string());
    vars.insert("mp".to_string(), "50".to_string());
    vars.insert("level".to_string(), "5".to_string());
    manager.set_variables(vars);
    assert_eq!(manager.count(), 3);
    assert_eq!(manager.get_variable("hp"), Some("100".to_string()));
    assert_eq!(manager.get_variable("mp"), Some("50".to_string()));
    assert_eq!(manager.get_variable("level"), Some("5".to_string()));
}

#[test]
fn test_empty_variable_value() {
    let mut manager = VariableManager::new();
    manager.set_variable("empty", "");
    assert!(manager.has_variable("empty"));
    assert_eq!(manager.get_variable("empty"), Some("".to_string()));
}

#[test]
fn test_numeric_string_values() {
    let mut manager = VariableManager::new();
    manager.set_variable("integer", "42");
    manager.set_variable("float", "3.14");
    manager.set_variable("negative", "-10");
    assert_eq!(manager.get_variable("integer"), Some("42".to_string()));
    assert_eq!(manager.get_variable("float"), Some("3.14".to_string()));
    assert_eq!(manager.get_variable("negative"), Some("-10".to_string()));
}

#[test]
fn test_special_characters_in_values() {
    let mut manager = VariableManager::new();
    manager.set_variable("path", "/usr/local/bin");
    manager.set_variable("email", "user@example.com");
    manager.set_variable("formula", "x + y = z");
    assert_eq!(manager.get_variable("path"), Some("/usr/local/bin".to_string()));
    assert_eq!(manager.get_variable("email"), Some("user@example.com".to_string()));
    assert_eq!(manager.get_variable("formula"), Some("x + y = z".to_string()));
}

#[test]
fn variables_set_then_get_keeps_others() {
    let mut manager = VariableManager::new();
    manager.set_variable("a", "1");
    manager.set_variable("B", "2");
    manager.set_variable("A", "3");
    assert_eq!(manager.get_variable("a"), Some("3".to_string()));
    assert_eq!(manager.get_variable("b"), Some("2".to_string()));
    assert!(manager.delete_variable("A"));
    assert_eq!(manager.get_variable("a"), None);
    assert_eq!(manager.get_variable("b"), Some("2".to_string()));
}

#[test]
fn variable_list_keeps_latest_spelling_and_batch_counts_new_names() {
    let mut vm = VariableManager::new();
    vm.set_variable("PlayerName", "Bob");
    vm.set_variable("playername", "Al");
    assert_eq!(vm.get_variable_list(), vec!["playername".to_string()]);
    let mut batch = StringMap::new();
    batch.insert("PLAYERNAME".to_string(), "Cy".to_string());
    batch.insert("hp".to_string(), "10".to_string());
    vm.set_variable("mp", "5");
    vm.set_variables(batch);
    assert_eq!(vm.count(), 3);
    assert_eq!(vm.get_variable("playername"), Some("Cy".to_string()));
    assert_eq!(vm.get_variable("HP"), Some("10".to_string()));
    assert_eq!(vm.get_variable("mp"), Some("5".to_string()));
}
