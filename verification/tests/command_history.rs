use macmush::command_history::{CommandHistory, DEFAULT_MAX_HISTORY};

#[test]
fn test_create_command_history() {
    let history = CommandHistory::new();
    assert_eq!(history.count(), 0);
    assert_eq!(history.max_size(), DEFAULT_MAX_HISTORY);
}

#[test]
fn test_create_with_custom_size() {
    let history = CommandHistory::with_max_size(100);
    assert_eq!(history.max_size(), 100);
}

#[test]
fn test_add_command() {
    let mut history = CommandHistory::new();

    history.add_command("look");
    assert_eq!(history.count(), 1);
    assert_eq!(history.get_last_command(), Some(&"look".to_string()));
}

#[test]
fn test_add_multiple_commands() {
    let mut history = CommandHistory::new();

    history.add_command("look");
    history.add_command("north");
    history.add_command("get sword");

    assert_eq!(history.count(), 3);
    assert_eq!(history.get_command(0), Some(&"look".to_string()));
    assert_eq!(history.get_command(1), Some(&"north".to_string()));
    assert_eq!(history.get_command(2), Some(&"get sword".to_string()));
}

#[test]
fn test_ignore_empty_commands() {
    let mut history = CommandHistory::new();

    history.add_command("");
    history.add_command("   ");
    history.add_command("\t");

    assert_eq!(history.count(), 0);
}

#[test]
fn test_ignore_duplicate_consecutive_commands() {
    let mut history = CommandHistory::new();

    history.add_command("look");
    history.add_command("look");
    history.add_command("look");

    assert_eq!(history.count(), 1);
}

#[test]
fn test_allow_non_consecutive_duplicates() {
    let mut history = CommandHistory::new();

    history.add_command("look");
    history.add_command("north");
    history.add_command("look");

    assert_eq!(history.count(), 3);
}

#[test]
fn test_navigate_previous() {
    let mut history = CommandHistory::new();

    history.add_command("command1");
    history.add_command("command2");
    history.add_command("command3");

    assert_eq!(history.get_previous(None), Some("command3".to_string()));
    assert_eq!(history.get_previous(None), Some("command2".to_string()));
    assert_eq!(history.get_previous(None), Some("command1".to_string()));
    assert_eq!(history.get_previous(None), Some("command1".to_string()));
}

#[test]
fn test_navigate_next() {
    let mut history = CommandHistory::new();

    history.add_command("command1");
    history.add_command("command2");
    history.add_command("command3");

    history.get_previous(None);
    history.get_previous(None);
    history.get_previous(None);

    assert_eq!(history.get_next(), Some("command2".to_string()));
    assert_eq!(history.get_next(), Some("command3".to_string()));
    assert_eq!(history.get_next(), None);
}

#[test]
fn test_save_and_restore_current_input() {
    let mut history = CommandHistory::new();

    history.add_command("command1");
    history.add_command("command2");

    let current_input = "partial command".to_string();

    assert_eq!(history.get_previous(Some(current_input.clone())), Some("command2".to_string()));

    let restored = history.get_next();
    assert_eq!(restored, Some(current_input));
}

#[test]
fn test_reset_position_after_add() {
    let mut history = CommandHistory::new();

    history.add_command("command1");
    history.get_previous(None);

    assert!(history.is_navigating());

    history.add_command("command2");

    assert!(!history.is_navigating());
}

#[test]
fn test_reset_position() {
    let mut history = CommandHistory::new();

    history.add_command("command1");
    history.get_previous(None);

    assert!(history.is_navigating());

    history.reset_position();

    assert!(!history.is_navigating());
}

#[test]
fn test_max_size_limit() {
    let mut history = CommandHistory::with_max_size(3);

    history.add_command("cmd1");
    history.add_command("cmd2");
    history.add_command("cmd3");
    history.add_command("cmd4");

    assert_eq!(history.count(), 3);
    assert_eq!(history.get_command(0), Some(&"cmd2".to_string()));
    assert_eq!(history.get_command(1), Some(&"cmd3".to_string()));
    assert_eq!(history.get_command(2), Some(&"cmd4".to_string()));
}

#[test]
fn test_set_max_size() {
    let mut history = CommandHistory::with_max_size(10);

    for i in 0..10 {
        history.add_command(&format!("cmd{}", i));
    }

    assert_eq!(history.count(), 10);

    history.set_max_size(5);

    assert_eq!(history.count(), 5);
    assert_eq!(history.get_command(0), Some(&"cmd5".to_string()));
}

#[test]
fn command_history_test_clear() {
    let mut history = CommandHistory::new();

    history.add_command("cmd1");
    history.add_command("cmd2");
    history.add_command("cmd3");

    assert_eq!(history.count(), 3);

    history.clear();

    assert_eq!(history.count(), 0);
    assert_eq!(history.get_last_command(), None);
}

#[test]
fn test_get_all_commands() {
    let mut history = CommandHistory::new();

    history.add_command("cmd1");
    history.add_command("cmd2");
    history.add_command("cmd3");

    let all = history.get_all_commands();

    assert_eq!(all.len(), 3);
    assert_eq!(all[0], "cmd1");
    assert_eq!(all[1], "cmd2");
    assert_eq!(all[2], "cmd3");
}

#[test]
fn test_is_navigating() {
    let mut history = CommandHistory::new();

    history.add_command("cmd1");

    assert!(!history.is_navigating());

    history.get_previous(None);
    assert!(history.is_navigating());

    history.reset_position();
    assert!(!history.is_navigating());
}

#[test]
fn test_current_position() {
    let mut history = CommandHistory::new();

    history.add_command("cmd1");
    history.add_command("cmd2");
    history.add_command("cmd3");

    assert_eq!(history.current_position(), None);

    history.get_previous(None);
    assert_eq!(history.current_position(), Some(2));

    history.get_previous(None);
    assert_eq!(history.current_position(), Some(1));
}

#[test]
fn test_navigation_at_empty_history() {
    let mut history = CommandHistory::new();

    assert_eq!(history.get_previous(None), None);
    assert_eq!(history.get_next(), None);
}

#[test]
fn test_complex_navigation_scenario() {
    let mut history = CommandHistory::new();

    history.add_command("north");
    history.add_command("east");
    history.add_command("south");

    let typing = Some("west".to_string());

    assert_eq!(history.get_previous(typing.clone()), Some("south".to_string()));
    assert_eq!(history.get_previous(None), Some("east".to_string()));
    assert_eq!(history.get_next(), Some("south".to_string()));
    assert_eq!(history.get_next(), Some("west".to_string()));
    assert_eq!(history.get_next(), None);
}

#[test]
fn history_up_then_down_gives_back_typed_input() {
    let mut history = CommandHistory::new();
    history.add_command("say hi");
    assert_eq!(history.get_previous(Some("draft".to_string())), Some("say hi".to_string()));
    assert_eq!(history.get_next(), Some("draft".to_string()));
    assert!(!history.is_navigating());
}

#[test]
fn history_added_command_is_last_and_size_bounded() {
    let mut history = CommandHistory::with_max_size(2);
    history.add_command("a");
    history.add_command("b");
    history.add_command("c");
    assert_eq!(history.count(), 2);
    assert_eq!(history.get_last_command(), Some(&"c".to_string()));
}

#[test]
fn next_after_history_emptied_while_navigating() {
    let mut h = CommandHistory::with_max_size(5);
    h.add_command("a");
    assert_eq!(h.get_previous(None), Some("a".to_string()));
    h.set_max_size(0);
    assert_eq!(h.get_next(), None);
    assert!(!h.is_navigating());
}
