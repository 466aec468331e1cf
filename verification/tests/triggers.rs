use macmush::error::MushError;
use macmush::triggers::{Trigger, TriggerAction, TriggerManager};

#[test]
fn test_create_simple_trigger() {
    let trigger = Trigger::new("Test Trigger", "^You see", TriggerAction::SendCommand("look".to_string()));

    assert!(trigger.is_ok(), "Should create simple trigger");
    let trigger = trigger.unwrap();
    assert_eq!(trigger.name, "Test Trigger");
    assert_eq!(trigger.pattern, "^You see");
    assert!(trigger.enabled);
}

#[test]
fn triggers_test_validate_safe_pattern() {
    let result = Trigger::validate_pattern("^Hello world$");
    assert!(result.is_ok(), "Should accept safe pattern");
}

#[test]
fn test_validate_redos_vulnerable_pattern() {
    let result = Trigger::validate_pattern("(a+)+b");
    assert!(result.is_err(), "Should reject ReDoS pattern");
    assert!(matches!(result, Err(MushError::InvalidRegex { .. })), "Should return InvalidRegex error");
}

#[test]
fn test_validate_nested_quantifiers() {
    let result = Trigger::validate_pattern("(x*)*");
    assert!(result.is_err(), "Should reject nested quantifiers");
}

#[test]
fn test_validate_alternation_with_overlap() {
    let result = Trigger::validate_pattern("(a|a)*b");
    assert!(result.is_err(), "Should reject overlapping alternations");
}

#[test]
fn triggers_test_compile_valid_pattern() {
    let mut trigger = Trigger::new("Test", "^You see (.+)", TriggerAction::SendCommand("look".to_string())).unwrap();

    let result = trigger.compile();
    assert!(result.is_ok(), "Should compile valid pattern");
    assert!(trigger.has_compiled_pattern(), "Should cache compiled regex");
}

#[test]
fn test_compile_invalid_regex() {
    let result = Trigger::new("Test", "[invalid", TriggerAction::SendCommand("look".to_string()));

    assert!(result.is_err(), "Should fail to create trigger with invalid regex");
    assert!(matches!(result, Err(MushError::InvalidRegex { .. })), "Should return InvalidRegex error");
}

#[test]
fn triggers_test_matches_simple_pattern() {
    let mut trigger = Trigger::new("Test", "^You see", TriggerAction::SendCommand("look".to_string())).unwrap();

    trigger.compile().unwrap();

    assert!(trigger.matches("You see a door").unwrap());
    assert!(!trigger.matches("You hear a sound").unwrap());
}

#[test]
fn test_matches_with_capture_groups() {
    let mut trigger =
        Trigger::new("Test", r"^(\w+) enters the room", TriggerAction::DisplayText("Someone arrived!".to_string()))
            .unwrap();

    trigger.compile().unwrap();

    assert!(trigger.matches("Alice enters the room").unwrap());
    assert!(trigger.matches("Bob enters the room").unwrap());
    assert!(!trigger.matches("Alice leaves the room").unwrap());
}

#[test]
fn test_disabled_trigger() {
    let mut trigger = Trigger::new("Test", "^You see", TriggerAction::SendCommand("look".to_string())).unwrap();

    trigger.enabled = false;
    trigger.compile().unwrap();

    assert!(trigger.matches("You see a door").unwrap());
}

#[test]
fn triggers_test_execute_send_command() {
    let trigger = Trigger::new("Test", "^You see", TriggerAction::SendCommand("look north".to_string())).unwrap();

    let commands = trigger.execute().unwrap();
    assert_eq!(commands.len(), 1);
    assert_eq!(commands[0], "look north");
}

#[test]
fn test_execute_sequence() {
    let trigger = Trigger::new(
        "Test",
        "^Battle!",
        TriggerAction::Sequence(vec![
            TriggerAction::SendCommand("draw sword".to_string()),
            TriggerAction::SendCommand("attack".to_string()),
        ]),
    )
    .unwrap();

    let commands = trigger.execute().unwrap();
    assert_eq!(commands.len(), 2);
    assert_eq!(commands[0], "draw sword");
    assert_eq!(commands[1], "attack");
}

#[test]
fn test_trigger_manager_add() {
    let mut manager = TriggerManager::new();
    let trigger = Trigger::new("Test", "^You see", TriggerAction::SendCommand("look".to_string())).unwrap();

    let result = manager.add_trigger(trigger);
    assert!(result.is_ok(), "Should add trigger to manager");
}

#[test]
fn test_trigger_manager_find_matches() {
    let mut manager = TriggerManager::new();

    let t1 =
        Trigger::new("Door Trigger", "^You see a door", TriggerAction::SendCommand("open door".to_string())).unwrap();
    let t2 =
        Trigger::new("Enemy Trigger", "^An enemy appears", TriggerAction::SendCommand("attack".to_string())).unwrap();

    manager.add_trigger(t1).unwrap();
    manager.add_trigger(t2).unwrap();

    let matches = manager.find_matches("You see a door to the north").unwrap();
    assert_eq!(matches.len(), 1);
    assert_eq!(matches[0].name, "Door Trigger");

    let matches = manager.find_matches("An enemy appears!").unwrap();
    assert_eq!(matches.len(), 1);
    assert_eq!(matches[0].name, "Enemy Trigger");

    let matches = manager.find_matches("Nothing special here").unwrap();
    assert_eq!(matches.len(), 0);
}

#[test]
fn test_trigger_manager_get_by_id() {
    let mut manager = TriggerManager::new();
    let trigger = Trigger::new("Test", "^You see", TriggerAction::SendCommand("look".to_string())).unwrap();

    let id = trigger.id;
    manager.add_trigger(trigger).unwrap();

    let found = manager.get_trigger(id);
    assert!(found.is_some());
    assert_eq!(found.unwrap().name, "Test");
}

#[test]
fn test_trigger_manager_remove() {
    let mut manager = TriggerManager::new();
    let trigger = Trigger::new("Test", "^You see", TriggerAction::SendCommand("look".to_string())).unwrap();

    let id = trigger.id;
    manager.add_trigger(trigger).unwrap();

    let result = manager.remove_trigger(id);
    assert!(result.is_ok(), "Should remove trigger");

    let found = manager.get_trigger(id);
    assert!(found.is_none(), "Trigger should be removed");
}

#[test]
fn test_validate_pattern_always_completes() {
    for pattern in ["", "((((", "a{2,1}", "\\", "(?P<x>y)", "[[:alpha:]]+", "é+"] {
        let _ = Trigger::validate_pattern(pattern);
    }
}

#[test]
fn test_safe_patterns_validate() {
    for pattern in ["a", "Hello World", "abc 123", "Z9 z9"] {
        assert!(Trigger::validate_pattern(pattern).is_ok());
    }
}

#[test]
fn test_pattern_compilation_doesnt_panic() {
    for pattern in ["a", "abcdefghij", "xyz"] {
        let mut trigger = Trigger::new("Test", pattern, TriggerAction::SendCommand("test".to_string())).unwrap();
        let _ = trigger.compile();
    }
}

#[test]
fn test_matching_doesnt_timeout() {
    let long_text = "a ".repeat(50);
    for (pattern, text) in [("abc", "xx abc yy"), ("a", long_text.as_str()), ("zz", "no match")] {
        if let Ok(mut trigger) = Trigger::new("Test", pattern, TriggerAction::SendCommand("test".to_string())) {
            if trigger.compile().is_ok() {
                let _ = trigger.matches(text);
            }
        }
    }
}

#[test]
fn trigger_disabled_ones_do_not_fire() {
    let mut manager = TriggerManager::new();
    let mut t1 = Trigger::new("Off", "door", TriggerAction::SendCommand("a".to_string())).unwrap();
    t1.set_enabled(false);
    let t2 = Trigger::new("On", "door", TriggerAction::SendCommand("b".to_string())).unwrap();
    manager.add_trigger(t1).unwrap();
    manager.add_trigger(t2).unwrap();
    let m = manager.find_matches("a door").unwrap();
    assert_eq!(m.len(), 1);
    assert_eq!(m[0].name, "On");
}

#[test]
fn trigger_redos_refusal_reason() {
    match Trigger::validate_pattern("(a+)+b") {
        Err(MushError::InvalidRegex { pattern, reason }) => {
            assert_eq!(pattern, "(a+)+b");
            assert_eq!(reason, "Nested quantifiers detected - potential ReDoS vulnerability");
        }
        _ => panic!("expected a refusal"),
    }
    match Trigger::validate_pattern("x|(a|a)") {
        Ok(()) => {}
        _ => panic!("overlap without a repeated group is accepted"),
    }
}

#[test]
fn trigger_captures_numbered_and_named() {
    let mut trigger =
        Trigger::new("Cap", r"^(?P<who>\w+) says (\w+)$", TriggerAction::SendCommand("x".to_string())).unwrap();
    let caps = trigger.extract_captures("Bob says hi").unwrap();
    assert_eq!(caps.get("0"), Some(&"Bob says hi".to_string()));
    assert_eq!(caps.get("1"), Some(&"Bob".to_string()));
    assert_eq!(caps.get("2"), Some(&"hi".to_string()));
    assert_eq!(caps.get("who"), Some(&"Bob".to_string()));
    assert!(trigger.extract_captures("nothing").unwrap().is_empty());
}
