use macmush::aliases::{expand_wildcards, Alias, AliasAction, AliasManager};
use macmush::text_map::StringMap;

#[test]
fn test_create_simple_alias() {
    let alias = Alias::new("Get Gold", "^gg$", AliasAction::SendCommand("get gold".to_string()));

    assert!(alias.is_ok(), "Should create simple alias");
    let alias = alias.unwrap();
    assert_eq!(alias.name, "Get Gold");
    assert_eq!(alias.pattern, "^gg$");
    assert!(alias.enabled);
}

#[test]
fn aliases_test_validate_safe_pattern() {
    let result = Alias::validate_pattern("^test$");
    assert!(result.is_ok(), "Should accept safe pattern");
}

#[test]
fn test_validate_invalid_regex() {
    let result = Alias::validate_pattern("[invalid");
    assert!(result.is_err(), "Should reject invalid regex");
}

#[test]
fn aliases_test_compile_valid_pattern() {
    let mut alias = Alias::new("Test", "^get (.+)", AliasAction::SendCommand("take %1".to_string())).unwrap();

    let result = alias.compile();
    assert!(result.is_ok(), "Should compile valid pattern");
    assert!(alias.has_compiled_pattern(), "Should cache compiled regex");
}

#[test]
fn aliases_test_matches_simple_pattern() {
    let mut alias = Alias::new("Test", "^gg$", AliasAction::SendCommand("get gold".to_string())).unwrap();

    alias.compile().unwrap();

    assert!(alias.matches("gg").unwrap());
    assert!(!alias.matches("get gold").unwrap());
}

#[test]
fn test_matches_with_wildcard() {
    let mut alias = Alias::new("Test", r"^get (.+)", AliasAction::SendCommand("take %1".to_string())).unwrap();

    alias.compile().unwrap();

    assert!(alias.matches("get sword").unwrap());
    assert!(alias.matches("get all").unwrap());
    assert!(!alias.matches("take sword").unwrap());
}

#[test]
fn test_execute_simple_command() {
    let mut alias = Alias::new("Test", "^gg$", AliasAction::SendCommand("get gold".to_string())).unwrap();

    let (commands, _) = alias.execute("gg").unwrap();
    assert_eq!(commands.len(), 1);
    assert_eq!(commands[0], "get gold");
}

#[test]
fn test_execute_with_wildcard_substitution() {
    let mut alias = Alias::new("Test", r"^get (.+)", AliasAction::SendCommand("take %1".to_string())).unwrap();

    let (commands, captures) = alias.execute("get sword").unwrap();
    assert_eq!(commands.len(), 1);
    assert_eq!(commands[0], "take sword");
    assert_eq!(captures.get("1"), Some(&"sword".to_string()));
}

#[test]
fn test_execute_multiple_captures() {
    let mut alias =
        Alias::new("Test", r"^give (\w+) to (\w+)", AliasAction::SendCommand("give %2 %1".to_string())).unwrap();

    let (commands, captures) = alias.execute("give sword to guard").unwrap();
    assert_eq!(commands.len(), 1);
    assert_eq!(commands[0], "give guard sword");
    assert_eq!(captures.get("1"), Some(&"sword".to_string()));
    assert_eq!(captures.get("2"), Some(&"guard".to_string()));
}

#[test]
fn aliases_test_execute_multiple_commands() {
    let mut alias = Alias::new(
        "Test",
        "^loot$",
        AliasAction::SendCommands(vec!["get gold".to_string(), "get silver".to_string()]),
    )
    .unwrap();

    let (commands, _) = alias.execute("loot").unwrap();
    assert_eq!(commands.len(), 2);
    assert_eq!(commands[0], "get gold");
    assert_eq!(commands[1], "get silver");
}

#[test]
fn test_alias_manager_add() {
    let mut manager = AliasManager::new();
    let alias = Alias::new("Test", "^gg$", AliasAction::SendCommand("get gold".to_string())).unwrap();

    let result = manager.add_alias(alias);
    assert!(result.is_ok(), "Should add alias to manager");
}

#[test]
fn test_alias_manager_find_match() {
    let mut manager = AliasManager::new();

    let a1 = Alias::new("Get Gold", "^gg$", AliasAction::SendCommand("get gold".to_string())).unwrap();
    let a2 = Alias::new("Get All", "^ga$", AliasAction::SendCommand("get all".to_string())).unwrap();

    manager.add_alias(a1).unwrap();
    manager.add_alias(a2).unwrap();

    let matched = manager.find_match("gg").unwrap();
    assert!(matched.is_some());
    assert_eq!(matched.unwrap().name, "Get Gold");

    let no_match = manager.find_match("xyz").unwrap();
    assert!(no_match.is_none());
}

#[test]
fn test_alias_manager_get_by_id() {
    let mut manager = AliasManager::new();
    let alias = Alias::new("Test", "^gg$", AliasAction::SendCommand("get gold".to_string())).unwrap();

    let id = alias.id;
    manager.add_alias(alias).unwrap();

    let found = manager.get_alias(id);
    assert!(found.is_some());
    assert_eq!(found.unwrap().name, "Test");
}

#[test]
fn test_alias_manager_remove() {
    let mut manager = AliasManager::new();
    let alias = Alias::new("Test", "^gg$", AliasAction::SendCommand("get gold".to_string())).unwrap();

    let id = alias.id;
    manager.add_alias(alias).unwrap();

    let result = manager.remove_alias(id);
    assert!(result.is_ok(), "Should remove alias");

    let found = manager.get_alias(id);
    assert!(found.is_none(), "Alias should be removed");
}

#[test]
fn test_disabled_alias() {
    let mut alias = Alias::new("Test", "^gg$", AliasAction::SendCommand("get gold".to_string())).unwrap();

    alias.enabled = false;
    alias.compile().unwrap();

    assert!(alias.matches("gg").unwrap());
}

#[test]
fn alias_manager_skips_disabled_aliases() {
    let mut manager = AliasManager::new();
    let mut a1 = Alias::new("First", "^g", AliasAction::SendCommand("one".to_string())).unwrap();
    a1.set_enabled(false);
    let a2 = Alias::new("Second", "^gg$", AliasAction::SendCommand("two".to_string())).unwrap();
    manager.add_alias(a1).unwrap();
    manager.add_alias(a2).unwrap();
    assert_eq!(manager.find_match("gg").unwrap().unwrap().name, "Second");
}

#[test]
fn alias_remove_unknown_id_is_not_an_error() {
    let mut manager = AliasManager::new();
    assert!(manager.remove_alias(42).is_ok());
}

#[test]
fn alias_expand_wildcards_replaces_numbered_captures() {
    let mut caps = StringMap::new();
    caps.insert("1".to_string(), "sword".to_string());
    caps.insert("2".to_string(), "guard".to_string());
    assert_eq!(expand_wildcards("give %2 %1", &caps), "give guard sword");
    assert_eq!(expand_wildcards("no wildcards", &caps), "no wildcards");
}

#[test]
fn alias_sequence_action_sends_all_commands() {
    let mut alias = Alias::new(
        "Seq",
        "^go (\\w+)$",
        AliasAction::Sequence(vec![
            AliasAction::SendCommand("open %1".to_string()),
            AliasAction::SendCommands(vec!["enter".to_string()]),
        ]),
    )
    .unwrap();
    let (commands, _) = alias.execute("go door").unwrap();
    assert_eq!(commands, vec!["open door".to_string(), "enter".to_string()]);
}

#[test]
fn alias_invalid_pattern_error_names_pattern() {
    let err = Alias::new("Bad", "(", AliasAction::SendCommand("x".to_string())).unwrap_err();
    assert!(err.message().starts_with("Invalid regex pattern '(':"));
}
