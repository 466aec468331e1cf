use macmush::timers::{next_fire_time, Timer, TimerAction, TimerManager, TimerSchedule, TimerType};

const SECOND: u64 = 1_000_000_000;
const MILLI: u64 = 1_000_000;

fn send(cmd: &str) -> TimerAction {
    TimerAction::SendCommand(cmd.to_string())
}

#[test]
fn one_shot_fires_once() {
    let mut s = TimerSchedule::new(TimerType::OneShot);
    assert!(!s.should_fire(0));
    s.start(100, 50);
    assert!(!s.should_fire(149));
    assert!(s.should_fire(150));
    s.reset(150, 50);
    assert!(!s.should_fire(10_000));
    assert_eq!(s.time_until_fire(10_000), None);
}

#[test]
fn repeating_is_due_again_after_interval() {
    let mut s = TimerSchedule::new(TimerType::Repeating);
    s.start(0, 10);
    assert_eq!(s.time_until_fire(4), Some(6));
    assert!(s.should_fire(10));
    s.reset(10, 10);
    assert!(!s.should_fire(19));
    assert!(s.should_fire(20));
    s.stop();
    assert!(!s.should_fire(1000));
}

#[test]
fn disabled_timer_never_fires() {
    let mut s = TimerSchedule::new(TimerType::Repeating);
    s.enabled = false;
    s.start(0, 1);
    assert!(!s.should_fire(5));
    assert_eq!(s.time_until_fire(0), None);
}

#[test]
fn start_saturates_at_end_of_clock() {
    let mut s = TimerSchedule::new(TimerType::OneShot);
    s.start(u64::MAX - 1, 10);
    assert_eq!(s.next_fire, Some(u64::MAX));
}

#[test]
fn soonest_wait() {
    assert_eq!(next_fire_time(&vec![None, Some(5), Some(3), None]), Some(3));
    assert_eq!(next_fire_time(&vec![None, None]), None);
    assert_eq!(next_fire_time(&vec![]), None);
}

#[test]
fn timer_action_commands_and_script() {
    let a = TimerAction::Sequence(vec![
        TimerAction::SendCommand("a".to_string()),
        TimerAction::ExecuteScript("s()".to_string()),
        TimerAction::SendCommands(vec!["b".to_string(), "c".to_string()]),
    ]);
    assert_eq!(a.commands(), vec!["a".to_string(), "b".to_string(), "c".to_string()]);
    assert_eq!(a.script(), Some("s()".to_string()));
}

#[test]
fn test_create_oneshot_timer() {
    let timer = Timer::new("Test Timer", TimerType::OneShot, SECOND, send("test"));
    assert_eq!(timer.name, "Test Timer");
    assert_eq!(timer.schedule.timer_type, TimerType::OneShot);
    assert_eq!(timer.interval_nanos, SECOND);
    assert!(timer.schedule.enabled);
}

#[test]
fn test_create_repeating_timer() {
    let timer = Timer::new("Repeating", TimerType::Repeating, 5 * SECOND, send("check hp"));
    assert_eq!(timer.schedule.timer_type, TimerType::Repeating);
}

#[test]
fn test_timer_start() {
    let mut timer = Timer::new("Test", TimerType::OneShot, SECOND, send("test"));
    assert!(timer.schedule.next_fire.is_none(), "Should not have fire time initially");
    timer.start(0);
    assert!(timer.schedule.next_fire.is_some(), "Should have fire time after start");
}

#[test]
fn test_timer_should_fire() {
    let mut timer = Timer::new("Test", TimerType::OneShot, 100 * MILLI, send("test"));
    timer.start(0);
    assert!(!timer.should_fire(0), "Should not fire immediately");
    assert!(timer.should_fire(150 * MILLI), "Should fire after interval");
}

#[test]
fn test_disabled_timer_no_fire() {
    let mut timer = Timer::new("Test", TimerType::OneShot, 100 * MILLI, send("test"));
    timer.start(0);
    timer.schedule.enabled = false;
    assert!(!timer.should_fire(150 * MILLI), "Disabled timer should not fire");
}

#[test]
fn test_oneshot_fires_once() {
    let mut timer = Timer::new("Test", TimerType::OneShot, 100 * MILLI, send("test"));
    timer.start(0);
    assert!(timer.should_fire(150 * MILLI), "Should fire first time");
    let _ = timer.execute(150 * MILLI);
    assert!(!timer.should_fire(150 * MILLI), "One-shot should not fire again");
}

#[test]
fn test_repeating_resets() {
    let mut timer = Timer::new("Test", TimerType::Repeating, 100 * MILLI, send("test"));
    timer.start(0);
    assert!(timer.should_fire(150 * MILLI), "Should fire first time");
    let _ = timer.execute(150 * MILLI);
    assert!(timer.schedule.next_fire.is_some(), "Repeating timer should reset fire time");
    assert_eq!(timer.schedule.next_fire, Some(250 * MILLI));
}

#[test]
fn timers_test_execute_send_command() {
    let mut timer = Timer::new("Test", TimerType::OneShot, SECOND, send("check hp"));
    timer.start(0);
    let commands = timer.execute(0);
    assert_eq!(commands.len(), 1);
    assert_eq!(commands[0], "check hp");
}

#[test]
fn timers_test_execute_multiple_commands() {
    let mut timer = Timer::new(
        "Test",
        TimerType::Repeating,
        5 * SECOND,
        TimerAction::SendCommands(vec!["look".to_string(), "inventory".to_string()]),
    );
    timer.start(0);
    let commands = timer.execute(0);
    assert_eq!(commands.len(), 2);
    assert_eq!(commands[0], "look");
    assert_eq!(commands[1], "inventory");
}

#[test]
fn test_timer_manager_add() {
    let mut manager = TimerManager::new();
    let timer = Timer::new("Test", TimerType::OneShot, SECOND, send("test"));
    let result = manager.add_timer(timer, 0);
    assert!(result.is_ok(), "Should add timer to manager");
    assert_eq!(manager.count(), 1);
}

#[test]
fn test_timer_manager_get_ready() {
    let mut manager = TimerManager::new();
    let timer = Timer::new("Quick", TimerType::OneShot, 100 * MILLI, send("test"));
    manager.add_timer(timer, 0).unwrap();
    assert_eq!(manager.get_ready_timers(0).len(), 0);
    assert_eq!(manager.get_ready_timers(150 * MILLI).len(), 1);
}

#[test]
fn test_timer_manager_get_by_id() {
    let mut manager = TimerManager::new();
    let timer = Timer::new("Test", TimerType::OneShot, SECOND, send("test"));
    let id = timer.id;
    manager.add_timer(timer, 0).unwrap();
    let found = manager.get_timer(id);
    assert!(found.is_some());
    assert_eq!(found.unwrap().name, "Test");
}

#[test]
fn test_timer_manager_remove() {
    let mut manager = TimerManager::new();
    let timer = Timer::new("Test", TimerType::OneShot, SECOND, send("test"));
    let id = timer.id;
    manager.add_timer(timer, 0).unwrap();
    let result = manager.remove_timer(id);
    assert!(result.is_ok(), "Should remove timer");
    assert!(manager.get_timer(id).is_none(), "Timer should be removed");
}

#[test]
fn test_time_until_fire() {
    let mut timer = Timer::new("Test", TimerType::OneShot, SECOND, send("test"));
    assert!(timer.time_until_fire(0).is_none(), "Should have no fire time before start");
    timer.start(0);
    let time_left = timer.time_until_fire(0);
    assert!(time_left.is_some());
    assert!(time_left.unwrap() <= SECOND);
    assert_eq!(timer.time_until_fire(400 * MILLI), Some(600 * MILLI));
    assert_eq!(timer.time_until_fire(2 * SECOND), Some(0));
}

#[test]
fn test_next_fire_time() {
    let mut manager = TimerManager::new();
    let t1 = Timer::new("Fast", TimerType::OneShot, 500 * MILLI, send("fast"));
    let t2 = Timer::new("Slow", TimerType::OneShot, 2 * SECOND, send("slow"));
    manager.add_timer(t1, 0).unwrap();
    manager.add_timer(t2, 0).unwrap();
    let next = manager.next_fire_time(0);
    assert!(next.is_some());
    assert!(next.unwrap() <= 500 * MILLI);
    assert_eq!(next, Some(500 * MILLI));
}

#[test]
fn manager_get_timer_mut_changes_in_place() {
    let mut manager = TimerManager::new();
    let timer = Timer::new("Test", TimerType::OneShot, SECOND, send("test"));
    let id = timer.id;
    manager.add_timer(timer, 0).unwrap();
    manager.get_timer_mut(id).unwrap().name = "Renamed".to_string();
    assert_eq!(manager.get_timer(id).unwrap().name, "Renamed");
    assert!(manager.get_timer_mut(id.wrapping_add(1)).is_none());
}

#[test]
fn manager_stop_and_start_all() {
    let mut manager = TimerManager::new();
    manager.add_timer(Timer::new("A", TimerType::Repeating, SECOND, send("a")), 0).unwrap();
    manager.add_timer(Timer::new("B", TimerType::OneShot, 2 * SECOND, send("b")), 0).unwrap();
    manager.stop_all();
    assert_eq!(manager.next_fire_time(0), None);
    assert_eq!(manager.get_ready_timers(10 * SECOND).len(), 0);
    manager.start_all(5 * SECOND);
    assert_eq!(manager.next_fire_time(5 * SECOND), Some(SECOND));
    assert_eq!(manager.timers().len(), 2);
}

#[test]
fn timer_from_parts_is_not_started() {
    let t = Timer::from_parts(9, "N".to_string(), TimerType::Repeating, 3, send("x"), false);
    assert_eq!(t.id, 9);
    assert!(!t.schedule.enabled);
    assert_eq!(t.schedule.next_fire, None);
    assert!(!t.schedule.has_fired);
}
