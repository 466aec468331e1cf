use macmush::aliases::{Alias, AliasAction};
use macmush::events::MudEvent;
use macmush::highlights::Highlight;
use macmush::keypad::{KeypadKey, KeypadModifier};
use macmush::session::{ScriptSource, SessionAction, SessionCore};
use macmush::timers::{Timer, TimerAction, TimerType};
use macmush::triggers::{Trigger, TriggerAction};
use macmush::world::World;

fn session() -> SessionCore {
    SessionCore::new(World::new("Test MUD", "127.0.0.1", 4000).unwrap())
}

fn sent(actions: &[SessionAction]) -> Vec<String> {
    actions
        .iter()
        .filter_map(|a| match a {
            SessionAction::Send { command, .. } => Some(command.clone()),
            _ => None,
        })
        .collect()
}

#[test]
fn session_incoming_data_fires_trigger() {
    let mut s = session();
    let t = Trigger::new("Door Trigger", "^You see", TriggerAction::SendCommand("open door".to_string())).unwrap();
    let tid = t.id;
    s.add_trigger(t).unwrap();

    let plan = s.plan_incoming(b"You see a door\n".to_vec());
    assert!(plan.error.is_none());
    assert!(matches!(&plan.actions[0], SessionAction::Publish(MudEvent::DataReceived { text, .. }) if text == "You see a door\n"));
    assert!(plan.actions.iter().any(|a| matches!(a, SessionAction::Publish(MudEvent::TriggerMatched { trigger_id, .. }) if *trigger_id == tid)));
    assert!(plan.actions.iter().any(|a| matches!(a, SessionAction::Publish(MudEvent::TriggerExecuted { .. }))));
    assert_eq!(sent(&plan.actions), vec!["open door".to_string()]);
}

#[test]
fn session_incoming_data_without_match() {
    let mut s = session();
    s.add_trigger(Trigger::new("Door", "^You see a door", TriggerAction::SendCommand("open door".to_string())).unwrap())
        .unwrap();
    let plan = s.plan_incoming(b"Nothing special here\n".to_vec());
    assert!(!plan.actions.iter().any(|a| matches!(a, SessionAction::Publish(MudEvent::TriggerMatched { .. }))));
    assert!(sent(&plan.actions).is_empty());
}

#[test]
fn session_incoming_data_feeds_tab_completion_and_highlights() {
    let mut s = session();
    s.add_highlight(Highlight::new("Gold", "gold", "#FFD700").unwrap()).unwrap();
    let plan = s.plan_incoming(b"You find gold".to_vec());
    assert!(plan.actions.iter().any(|a| matches!(a, SessionAction::Publish(MudEvent::HighlightMatched { matches, .. }) if matches.len() == 1 && matches[0].0 == 9)));
    assert_eq!(s.tab_completion().get_completions("fin"), vec!["find".to_string()]);
}

#[test]
fn session_alias_expands_command() {
    let mut s = session();
    s.add_alias(Alias::new("Get Gold", "^gg$", AliasAction::SendCommand("get gold".to_string())).unwrap()).unwrap();
    let plan = s.plan_command("gg");
    assert!(plan.actions.iter().any(|a| matches!(a, SessionAction::Publish(MudEvent::AliasMatched { .. }))));
    assert!(plan.actions.iter().any(|a| matches!(a, SessionAction::Publish(MudEvent::AliasExecuted { .. }))));
    assert_eq!(sent(&plan.actions), vec!["get gold".to_string()]);
}

#[test]
fn session_alias_with_wildcards() {
    let mut s = session();
    s.add_alias(Alias::new("Get", r"^get (.+)", AliasAction::SendCommand("take %1".to_string())).unwrap()).unwrap();
    let plan = s.plan_command("get sword");
    assert_eq!(sent(&plan.actions), vec!["take sword".to_string()]);
}

#[test]
fn session_no_alias_sends_command_as_is() {
    let mut s = session();
    let plan = s.plan_command("say hello");
    assert_eq!(sent(&plan.actions), vec!["say hello".to_string()]);
    assert!(matches!(&plan.actions[0], SessionAction::Send { source: None, .. }));
}

#[test]
fn session_speedwalk_expands_and_goes_into_history() {
    let mut s = session();
    let plan = s.plan_command("2n e");
    assert_eq!(sent(&plan.actions), vec!["north".to_string(), "north".to_string(), "east".to_string()]);
    assert_eq!(s.command_history().get_last_command(), Some(&"2n e".to_string()));
    s.set_speedwalk_enabled(false);
    let plan = s.plan_command("2n");
    assert_eq!(sent(&plan.actions), vec!["2n".to_string()]);
}

#[test]
fn session_speedwalk_custom_direction() {
    let mut s = session();
    s.add_speedwalk_direction("in", "enter");
    assert_eq!(sent(&s.plan_command("2in").actions), vec!["enter".to_string(), "enter".to_string()]);
    assert!(s.remove_speedwalk_direction("in"));
    assert_eq!(sent(&s.plan_command("2in").actions), vec!["2in".to_string()]);
}

#[test]
fn session_timer_action_steps() {
    let s = session();
    let steps = s.plan_timer(7, &TimerAction::SendCommands(vec!["a".to_string(), "b".to_string()]));
    assert_eq!(sent(&steps), vec!["a".to_string(), "b".to_string()]);
    assert!(steps.iter().any(|a| matches!(a, SessionAction::Publish(MudEvent::TimerExecuted { timer_id: 7, .. }))));
    let steps = s.plan_timer(7, &TimerAction::ExecuteScript("x()".to_string()));
    assert!(steps.iter().any(|a| matches!(a, SessionAction::RunScript { source: ScriptSource::Timer(7), .. })));
}

#[test]
fn session_keypad_key_sends_binding() {
    let mut s = session();
    assert_eq!(sent(&s.plan_keypad(KeypadKey::Num8, KeypadModifier::Plain).actions), vec!["north".to_string()]);
    s.set_keypad_command(KeypadKey::Num8, KeypadModifier::Plain, "search".to_string());
    assert_eq!(sent(&s.plan_keypad(KeypadKey::Num8, KeypadModifier::Plain).actions), vec!["search".to_string()]);
    s.set_keypad_command(KeypadKey::Num2, KeypadModifier::Plain, "2s".to_string());
    assert_eq!(sent(&s.plan_keypad(KeypadKey::Num2, KeypadModifier::Plain).actions), vec!["south".to_string(), "south".to_string()]);
    assert!(sent(&s.plan_keypad(KeypadKey::Num4, KeypadModifier::Ctrl).actions).is_empty());
}

#[test]
fn session_variables_case_insensitive() {
    let mut s = session();
    s.set_variable("HP", "100");
    assert_eq!(s.get_variable("hp"), Some("100".to_string()));
    assert!(s.has_variable("Hp"));
    assert!(s.delete_variable("hP"));
    assert_eq!(s.get_variable("hp"), None);
    s.set_variable("a", "1");
    s.clear_variables();
    assert!(!s.has_variable("a"));
}

#[test]
fn session_history_navigation() {
    let mut s = session();
    s.plan_command("look");
    s.plan_command("north");
    s.plan_command("   ");
    assert_eq!(s.command_history().count(), 2);
    assert_eq!(s.get_previous_command(None), Some("north".to_string()));
    assert_eq!(s.get_previous_command(None), Some("look".to_string()));
    assert_eq!(s.get_next_command(), Some("north".to_string()));
    s.clear_command_history();
    assert_eq!(s.command_history().count(), 0);
}

#[test]
fn session_update_and_remove_items() {
    let mut s = session();
    let t = Trigger::new("A", "a", TriggerAction::SendCommand("x".to_string())).unwrap();
    let id = t.id;
    s.add_trigger(t).unwrap();
    let t2 = Trigger::new_with_id(id, "B", "b", TriggerAction::SendCommand("y".to_string())).unwrap();
    s.update_trigger(t2).unwrap();
    assert_eq!(s.get_trigger(id).unwrap().name, "B");
    assert!(s.remove_trigger(id).is_ok());
    assert!(s.get_trigger(id).is_none());
    assert!(s.remove_trigger(id).is_ok());
    let h = Highlight::new("H", "h", "#000000").unwrap();
    assert!(s.update_highlight(h).is_err());
}

#[test]
fn session_timers_fire_in_order_when_due() {
    let mut s = session();
    let t1 = Timer::new("Quick", TimerType::OneShot, 100, TimerAction::SendCommand("test command".to_string()));
    let t2 = Timer::new("Slow", TimerType::Repeating, 1000, TimerAction::SendCommands(vec!["look".to_string(), "score".to_string()]));
    let id1 = t1.id;
    s.add_timer(t1, 0).unwrap();
    s.add_timer(t2, 0).unwrap();
    assert!(s.plan_timers(50).is_empty());
    let steps = s.plan_timers(150);
    assert!(steps.iter().any(|a| matches!(a, SessionAction::Publish(MudEvent::TimerExecuted { timer_id, commands, .. }) if *timer_id == id1 && commands == &vec!["test command".to_string()])));
    assert_eq!(sent(&steps), vec!["test command".to_string()]);
    // the one-shot timer does not fire again
    assert_eq!(sent(&s.plan_timers(1200)), vec!["look".to_string(), "score".to_string()]);
    assert!(s.plan_timers(1300).is_empty());
    assert_eq!(s.next_timer_wait(1300), Some(900));
}

#[test]
fn session_timer_management() {
    let mut s = session();
    let t = Timer::new("T", TimerType::Repeating, 10, TimerAction::SendCommand("x".to_string()));
    let id = t.id;
    s.add_timer(t, 0).unwrap();
    assert_eq!(s.get_timer(id).unwrap().name, "T");
    let mut u = Timer::from_parts(id, "U".to_string(), TimerType::Repeating, 20, TimerAction::SendCommand("y".to_string()), true);
    u.schedule.has_fired = true;
    s.update_timer(u, 100).unwrap();
    assert_eq!(s.get_timer(id).unwrap().name, "U");
    assert_eq!(s.get_timer(id).unwrap().schedule.next_fire, Some(120));
    s.stop_timers();
    assert!(s.plan_timers(1000).is_empty());
    s.remove_timer(id).unwrap();
    assert!(s.get_timer(id).is_none());
}

#[test]
fn session_accessors_change_parts_in_place() {
    let mut s = session();
    s.command_history_mut().add_command("look");
    s.command_history_mut().add_command("score");
    assert_eq!(s.command_history_count(), 2);
    assert_eq!(s.get_command_history(), vec!["look".to_string(), "score".to_string()]);
    s.set_command_history_max_size(1);
    assert_eq!(s.get_command_history(), vec!["score".to_string()]);

    s.variable_manager_mut().set_variable("hp", "100");
    assert_eq!(s.get_variable("HP"), Some("100".to_string()));

    s.speedwalk_mut().set_enabled(false);
    assert!(!s.is_speedwalk_enabled());
    assert!(!s.speedwalk().is_enabled());

    s.keypad_mapping_mut().set_command(KeypadKey::Num8, KeypadModifier::Plain, "north".to_string());
    assert_eq!(s.keypad_mapping().get_command(KeypadKey::Num8, KeypadModifier::Plain), Some("north"));
}

#[test]
fn session_best_and_cycled_completion() {
    let mut s = session();
    let _ = s.plan_incoming(b"sword shield".to_vec());
    assert_eq!(s.get_best_completion(""), None);
    let best = s.get_best_completion("s").unwrap();
    assert!(best == "sword" || best == "shield");
    let next = s.cycle_completion("s", Some(best.as_str())).unwrap();
    assert_ne!(next, best);
    assert_eq!(s.get_best_completion("x"), None);
}

#[test]
fn session_incoming_invalid_utf8_is_replaced() {
    let mut s = session();
    let plan = s.plan_incoming(vec![b'o', b'k', 0xff, b'!']);
    assert!(plan.error.is_none());
    assert!(matches!(&plan.actions[0], SessionAction::Publish(MudEvent::DataReceived { text, data, .. })
        if text == "ok\u{FFFD}!" && data == &vec![b'o', b'k', 0xff, b'!']));
}

#[test]
fn readme_alias_gg_gets_all_from_corpse() {
    let mut s = session();
    s.add_alias(Alias::new("Loot", "^gg$", AliasAction::SendCommand("get all from corpse".to_string())).unwrap())
        .unwrap();
    let plan = s.plan_command("gg");
    assert!(plan.error.is_none());
    assert_eq!(sent(&plan.actions), vec!["get all from corpse".to_string()]);
    let plan = s.plan_command("ggg");
    assert_eq!(sent(&plan.actions), vec!["ggg".to_string()]);
}

#[test]
fn readme_trigger_hungry_eats_bread() {
    let mut s = session();
    s.add_trigger(Trigger::new("Hunger", "You are hungry", TriggerAction::SendCommand("eat bread".to_string())).unwrap())
        .unwrap();
    let plan = s.plan_incoming(b"You are hungry.\n".to_vec());
    assert_eq!(sent(&plan.actions), vec!["eat bread".to_string()]);
}

#[test]
fn readme_speedwalk_4n2e() {
    let mut s = session();
    let plan = s.plan_command("4n2e");
    assert!(plan.error.is_none());
    assert_eq!(
        sent(&plan.actions),
        vec!["north", "north", "north", "north", "east", "east"].into_iter().map(String::from).collect::<Vec<_>>()
    );
}

#[test]
fn session_remove_undoes_add_and_update_replaces() {
    let mut s = session();
    let keep = Trigger::new("Keep", "a", TriggerAction::SendCommand("x".to_string())).unwrap();
    let keep_id = keep.id;
    s.add_trigger(keep).unwrap();
    let extra = Trigger::new("Extra", "b", TriggerAction::SendCommand("y".to_string())).unwrap();
    let extra_id = extra.id;
    s.add_trigger(extra).unwrap();
    s.remove_trigger(extra_id).unwrap();
    assert!(s.get_trigger(extra_id).is_none());
    assert_eq!(s.get_trigger(keep_id).unwrap().name, "Keep");
    assert_eq!(sent(&s.plan_incoming(b"ab".to_vec()).actions), vec!["x".to_string()]);

    let newer = Trigger::new_with_id(keep_id, "Newer", "a", TriggerAction::SendCommand("z".to_string())).unwrap();
    s.update_trigger(newer).unwrap();
    assert_eq!(s.get_trigger(keep_id).unwrap().name, "Newer");
    assert_eq!(sent(&s.plan_incoming(b"ab".to_vec()).actions), vec!["z".to_string()]);
}
