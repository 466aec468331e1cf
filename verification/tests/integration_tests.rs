use macmush::triggers::{Trigger, TriggerAction, TriggerManager};

#[test]
fn test_trigger_manager_with_multiple_triggers() {
    let mut manager = TriggerManager::new();

    let t1 = Trigger::new(
        "HP Trigger",
        r"^HP: (\d+)/(\d+)",
        TriggerAction::DisplayText("Health updated!".to_string()),
    )
    .unwrap();

    let t2 = Trigger::new("Combat Trigger", r"^You (hit|miss) the", TriggerAction::SendCommand("look".to_string()))
        .unwrap();

    let t3 = Trigger::new(
        "Death Trigger",
        r"^You have been slain",
        TriggerAction::Sequence(vec![
            TriggerAction::DisplayText("DEATH WARNING!".to_string()),
            TriggerAction::PlaySound("death.wav".to_string()),
            TriggerAction::SendCommand("return".to_string()),
        ]),
    )
    .unwrap();

    manager.add_trigger(t1).unwrap();
    manager.add_trigger(t2).unwrap();
    manager.add_trigger(t3).unwrap();

    let matches = manager.find_matches("HP: 95/100").expect("Should find matches");
    assert_eq!(matches.len(), 1);
    assert_eq!(matches[0].name, "HP Trigger");

    let matches = manager.find_matches("You hit the goblin!").expect("Should find matches");
    assert_eq!(matches.len(), 1);
    assert_eq!(matches[0].name, "Combat Trigger");

    let matches = manager.find_matches("You have been slain by a dragon!").expect("Should find matches");
    assert_eq!(matches.len(), 1);
    assert_eq!(matches[0].name, "Death Trigger");

    let matches = manager.find_matches("The weather is nice today.").expect("Should find matches");
    assert_eq!(matches.len(), 0);
}

#[test]
fn test_trigger_execution_generates_commands() {
    let trigger = Trigger::new(
        "Battle Trigger",
        r"^Enemy appears",
        TriggerAction::Sequence(vec![
            TriggerAction::SendCommand("draw sword".to_string()),
            TriggerAction::SendCommand("attack".to_string()),
            TriggerAction::SendCommand("defend".to_string()),
        ]),
    )
    .unwrap();

    let commands = trigger.execute().expect("Should execute trigger");

    assert_eq!(commands.len(), 3);
    assert_eq!(commands[0], "draw sword");
    assert_eq!(commands[1], "attack");
    assert_eq!(commands[2], "defend");
}

#[test]
fn test_invalid_trigger_pattern() {
    let result = Trigger::new("Bad Trigger", "(a+)+b", TriggerAction::SendCommand("test".to_string()));
    assert!(result.is_err(), "Should reject ReDoS-vulnerable pattern");
}

#[test]
fn test_trigger_performance_with_many_triggers() {
    let mut manager = TriggerManager::new();

    for i in 0..100 {
        let trigger = Trigger::new(
            &format!("Trigger {}", i),
            &format!(r"^Pattern {}\b", i),
            TriggerAction::SendCommand(format!("command{}", i)),
        )
        .unwrap();
        manager.add_trigger(trigger).unwrap();
    }

    let start = std::time::Instant::now();
    let matches = manager.find_matches("Some random text that won't match").unwrap();
    let duration = start.elapsed();

    assert_eq!(matches.len(), 0);
    assert!(
        duration.as_millis() < 500,
        "Should check 100 triggers in under 500ms, took {}ms",
        duration.as_millis()
    );

    let start = std::time::Instant::now();
    let matches = manager.find_matches("Pattern 50").unwrap();
    let duration = start.elapsed();

    assert_eq!(matches.len(), 1);
    assert_eq!(matches[0].name, "Trigger 50");
    assert!(
        duration.as_millis() < 500,
        "Should find match in under 500ms, took {}ms",
        duration.as_millis()
    );
}
