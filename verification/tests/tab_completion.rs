use macmush::tab_completion::TabCompletion;

#[test]
fn test_extract_words() {
    let text = "You see a goblin and an orc-warrior here.";
    let words = TabCompletion::extract_words(text);
    assert_eq!(words, vec!["You", "see", "a", "goblin", "and", "an", "orc-warrior", "here"]);
}

#[test]
fn test_add_output() {
    let mut completion = TabCompletion::new();
    completion.add_output("attack goblin with sword");
    let matches = completion.get_completions("att");
    assert!(matches.contains(&"attack".to_string()));
}

#[test]
fn test_completion_matching() {
    let mut completion = TabCompletion::new();
    completion.add_output("attack the goblin");
    completion.add_output("attack the orc");
    completion.add_output("defend yourself");

    let matches = completion.get_completions("att");
    assert_eq!(matches.len(), 1);
    assert_eq!(matches[0], "attack");

    let matches = completion.get_completions("def");
    assert_eq!(matches.len(), 1);
    assert_eq!(matches[0], "defend");
}

#[test]
fn test_frequency_sorting() {
    let mut completion = TabCompletion::new();
    completion.add_output("attack");
    completion.add_output("attack");
    completion.add_output("attack");
    completion.add_output("attempt");

    let matches = completion.get_completions("att");
    assert_eq!(matches[0], "attack");
    assert_eq!(matches[1], "attempt");
}

#[test]
fn test_case_insensitive() {
    let mut completion = TabCompletion::new();
    completion.add_output("Attack the Goblin");

    let matches = completion.get_completions("att");
    assert_eq!(matches.len(), 1);
    assert_eq!(matches[0], "attack");

    let matches = completion.get_completions("gob");
    assert_eq!(matches.len(), 1);
    assert_eq!(matches[0], "goblin");
}

#[test]
fn test_case_sensitive() {
    let mut completion = TabCompletion::with_config(1000, true);
    completion.add_output("Attack the Goblin");

    let matches = completion.get_completions("Att");
    assert_eq!(matches.len(), 1);
    assert_eq!(matches[0], "Attack");

    let matches = completion.get_completions("att");
    assert_eq!(matches.len(), 0);
}

#[test]
fn test_best_match() {
    let mut completion = TabCompletion::new();
    completion.add_output("attack goblin defend yourself");

    assert_eq!(completion.get_best_match("att"), Some("attack".to_string()));
    assert_eq!(completion.get_best_match("xyz"), None);
}

#[test]
fn test_cycle_completion() {
    let mut completion = TabCompletion::new();
    completion.add_output("attack attempt attract");

    let first = completion.cycle_completion("att", None);
    assert!(first.is_some());

    let second = completion.cycle_completion("att", first.as_deref());
    assert!(second.is_some());
    assert_ne!(first, second);

    let matches = completion.get_completions("att");
    let wrapped = completion.cycle_completion("att", matches.last().map(|s| s.as_str()));
    assert_eq!(wrapped, first);
}

#[test]
fn test_min_word_length() {
    let mut completion = TabCompletion::new();
    completion.add_output("a an the it");
    let matches = completion.get_completions("a");
    assert_eq!(matches.len(), 0);
}

#[test]
fn test_history_limit() {
    let mut completion = TabCompletion::with_config(5, false);
    for i in 0..10 {
        completion.add_output(&format!("word{}", i));
    }
    assert!(completion.stats().history_size <= 5);
}

#[test]
fn tab_completion_test_clear() {
    let mut completion = TabCompletion::new();
    completion.add_output("attack defend");

    assert!(completion.stats().total_words > 0);

    completion.clear();

    assert_eq!(completion.stats().total_words, 0);
    assert_eq!(completion.stats().history_size, 0);
}

#[test]
fn test_stats() {
    let mut completion = TabCompletion::new();
    completion.add_output("attack attack defend");

    let stats = completion.stats();
    assert_eq!(stats.total_words, 2);
    assert!(stats.most_frequent.len() > 0);
    assert_eq!(stats.most_frequent[0].0, "attack");
}

#[test]
fn tab_cycle_visits_each_completion_in_order() {
    let mut completion = TabCompletion::new();
    completion.add_output("attack attack attempt attract");
    let l = completion.get_completions("att");
    assert_eq!(l, vec!["attack", "attempt", "attract"]);
    assert_eq!(completion.cycle_completion("att", Some("attack")), Some("attempt".to_string()));
    assert_eq!(completion.cycle_completion("att", Some("attract")), Some("attack".to_string()));
    assert_eq!(completion.cycle_completion("att", Some("zzz")), Some("attack".to_string()));
    assert_eq!(completion.cycle_completion("xyz", None), None);
}

#[test]
fn tab_empty_partial_has_no_completions() {
    let mut completion = TabCompletion::new();
    completion.add_output("attack");
    assert!(completion.get_completions("").is_empty());
}

#[test]
fn tab_case_setting_changes_matching() {
    let mut completion = TabCompletion::with_config(100, true);
    completion.add_output("Attack");
    completion.set_case_sensitive(false);
    assert!(completion.get_completions("ATT").len() <= 1);
}

#[test]
fn best_match_is_first_completion_and_history_stays_bounded() {
    let mut tc = TabCompletion::with_config(5, false);
    for i in 0..10 {
        tc.add_output(&format!("word{}", i));
    }
    assert!(tc.stats().history_size <= 5);
    tc.add_output("sword sword shield");
    let list = tc.get_completions("s");
    assert_eq!(list, vec!["sword".to_string(), "shield".to_string()]);
    assert_eq!(tc.get_best_match("s"), Some(list[0].clone()));
    assert_eq!(tc.cycle_completion("s", Some("shield")), Some("sword".to_string()));
}
