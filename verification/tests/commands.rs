use macmush::aliases::AliasAction;
use macmush::commands::{
    item_id_from, timer_with_update, TimerUpdate, alias_action_from, alias_from_create_request, alias_with_update, automation_highlight,
    generate_log_filename, highlight_from_create_request, highlight_with_update, import_result,
    load_automation_into_session, log_entry, log_entry_at, log_filename, log_footer_at, log_header,
    log_header_at, timer_action_from, timer_type_from, trigger_action_from, trigger_from_add_request,
    trigger_from_create_request, trigger_with_update, world_from_connect_request, world_from_create_request,
    world_from_update_request, AddTriggerRequest, ConnectRequest, CreateAliasRequest, CreateHighlightRequest,
    CreateTriggerRequest, CreateWorldRequest, UpdateAliasRequest, UpdateHighlightRequest, UpdateTriggerRequest,
    UpdateWorldRequest,
};
use macmush::highlights::Highlight as AutoHighlight;
use macmush::session::SessionCore;
use macmush::timers::{Timer, TimerAction, TimerType};
use macmush::triggers::{Trigger, TriggerAction};
use macmush::world::World;
use macmush::world_file::{TriggersList, WorldConfig, WorldFile};

fn create_trigger(action: &str) -> CreateTriggerRequest {
    CreateTriggerRequest {
        name: "T".to_string(),
        pattern: "^You see".to_string(),
        action: action.to_string(),
        command: Some("look".to_string()),
        text: None,
        script: None,
        enabled: false,
    }
}

#[test]
fn action_kinds_are_read_in_any_case() {
    assert!(matches!(
        trigger_action_from("SEND_COMMAND", Some("x".to_string()), None, None, true),
        Ok(TriggerAction::SendCommand(c)) if c == "x"
    ));
    assert!(matches!(
        alias_action_from("Send_Commands", None, Some(vec!["a".to_string()]), None, false),
        Ok(AliasAction::SendCommands(v)) if v == vec!["a".to_string()]
    ));
    assert!(matches!(
        timer_action_from("execute_script", None, None, Some("s".to_string()), true),
        Ok(TimerAction::ExecuteScript(s)) if s == "s"
    ));
    assert_eq!(timer_type_from("OneShot", true), Ok(TimerType::OneShot));
    assert_eq!(timer_type_from("repeating", false), Ok(TimerType::Repeating));
}

#[test]
fn action_errors_name_the_missing_field() {
    assert_eq!(
        trigger_action_from("display_text", None, None, None, true).unwrap_err(),
        "text field required for display_text action"
    );
    assert_eq!(trigger_action_from("display_text", None, None, None, false).unwrap_err(), "text field required");
    assert_eq!(alias_action_from("fly", None, None, None, true).unwrap_err(), "Invalid action type");
    assert_eq!(
        timer_type_from("daily", true).unwrap_err(),
        "Invalid timer type. Must be 'oneshot' or 'repeating'"
    );
    assert_eq!(timer_type_from("daily", false).unwrap_err(), "Invalid timer type");
}

#[test]
fn add_trigger_request_prefers_non_blank_script() {
    let t = trigger_from_add_request(AddTriggerRequest {
        name: "T".to_string(),
        pattern: "x".to_string(),
        command: "cmd".to_string(),
        script: Some("  ".to_string()),
    })
    .unwrap();
    assert!(matches!(t.action, TriggerAction::SendCommand(ref c) if c == "cmd"));
    let t = trigger_from_add_request(AddTriggerRequest {
        name: "T".to_string(),
        pattern: "x".to_string(),
        command: "cmd".to_string(),
        script: Some("print(1)".to_string()),
    })
    .unwrap();
    assert!(matches!(t.action, TriggerAction::ExecuteScript(ref s) if s == "print(1)"));
    let e = trigger_from_add_request(AddTriggerRequest {
        name: "T".to_string(),
        pattern: "(a+)+".to_string(),
        command: "c".to_string(),
        script: None,
    })
    .unwrap_err();
    assert_eq!(
        e,
        "Invalid trigger: Invalid regex pattern '(a+)+': Nested quantifiers detected - potential ReDoS vulnerability"
    );
}

#[test]
fn create_trigger_request_sets_enabled_and_reports_errors() {
    let t = trigger_from_create_request(create_trigger("send_command")).unwrap();
    assert!(!t.enabled);
    assert_eq!(t.name, "T");
    let mut bad = create_trigger("send_command");
    bad.command = None;
    assert_eq!(trigger_from_create_request(bad).unwrap_err(), "command field required for send_command action");
    let mut bad = create_trigger("send_command");
    bad.pattern = "[".to_string();
    assert!(trigger_from_create_request(bad).unwrap_err().starts_with("Failed to create trigger: Invalid regex pattern '[': "));
}

#[test]
fn update_trigger_request_changes_given_fields() {
    let t = Trigger::new("Old", "old", TriggerAction::SendCommand("a".to_string())).unwrap();
    let id = t.id;
    let u = trigger_with_update(
        t,
        UpdateTriggerRequest {
            id: String::new(),
            name: Some("New".to_string()),
            pattern: Some("new".to_string()),
            action: Some("display_text".to_string()),
            command: None,
            text: Some("hi".to_string()),
            script: None,
            enabled: Some(false),
        },
    )
    .unwrap();
    assert_eq!(u.id, id);
    assert_eq!(u.name, "New");
    assert_eq!(u.pattern, "new");
    assert!(!u.enabled);
    assert!(matches!(u.action, TriggerAction::DisplayText(ref t) if t == "hi"));

    let t = Trigger::new("Old", "old", TriggerAction::SendCommand("a".to_string())).unwrap();
    let e = trigger_with_update(
        t,
        UpdateTriggerRequest {
            id: String::new(),
            name: None,
            pattern: Some("(x*)*".to_string()),
            action: None,
            command: None,
            text: None,
            script: None,
            enabled: None,
        },
    )
    .unwrap_err();
    assert_eq!(
        e,
        "Invalid pattern: Invalid regex pattern '(x*)*': Nested quantifiers detected - potential ReDoS vulnerability"
    );
}

#[test]
fn alias_requests() {
    let a = alias_from_create_request(CreateAliasRequest {
        name: "gg".to_string(),
        pattern: "^gg$".to_string(),
        action: "send_commands".to_string(),
        command: None,
        commands: Some(vec!["get gold".to_string(), "get silver".to_string()]),
        script: None,
        enabled: true,
    })
    .unwrap();
    assert!(a.enabled);
    let u = alias_with_update(
        a,
        UpdateAliasRequest {
            id: String::new(),
            name: None,
            pattern: None,
            action: Some("send_command".to_string()),
            command: None,
            commands: None,
            script: None,
            enabled: None,
        },
    );
    assert_eq!(u.unwrap_err(), "command field required");
}

#[test]
fn highlight_records() {
    let h = highlight_from_create_request(CreateHighlightRequest {
        name: "HP".to_string(),
        pattern: r"HP: (\d+)".to_string(),
        color: "#00FF00".to_string(),
        bold: true,
        italic: false,
        underline: false,
        variables: vec!["hp".to_string()],
        enabled: true,
    })
    .unwrap();
    assert_eq!(h.name, "HP");
    assert!(h.bold);

    let bad = highlight_from_create_request(CreateHighlightRequest {
        name: "x".to_string(),
        pattern: "(".to_string(),
        color: "#000000".to_string(),
        bold: false,
        italic: false,
        underline: false,
        variables: vec![],
        enabled: true,
    });
    assert!(bad.unwrap_err().starts_with("Invalid regex pattern: "));

    let auto = automation_highlight(&h).unwrap();
    assert_ne!(auto.id, h.id);
    assert_eq!(auto.variables, vec!["hp".to_string()]);
    assert!(auto.bold);

    let id = h.id;
    let u = highlight_with_update(
        h,
        UpdateHighlightRequest {
            id: String::new(),
            name: None,
            pattern: None,
            color: Some("zzz".to_string()),
            bold: Some(false),
            italic: None,
            underline: None,
            variables: None,
            enabled: None,
        },
    )
    .unwrap();
    assert_eq!(u.id, id);
    assert_eq!(u.color, "zzz");
    assert_eq!(
        automation_highlight(&u).unwrap_err(),
        "Failed to create automation highlight: Invalid input for field 'color': Invalid color format: 'zzz'. Expected #RRGGBB"
    );
}

#[test]
fn world_requests() {
    let w = world_from_connect_request(&ConnectRequest {
        name: "M".to_string(),
        host: "mud.example.com".to_string(),
        port: 23,
        use_tls: true,
    })
    .unwrap();
    assert!(!w.use_tls);
    let e = world_from_connect_request(&ConnectRequest {
        name: "M".to_string(),
        host: "a..b".to_string(),
        port: 23,
        use_tls: false,
    })
    .unwrap_err();
    assert_eq!(e, "Invalid world configuration: Invalid hostname: a..b");

    let w = world_from_create_request(CreateWorldRequest {
        name: "M".to_string(),
        host: "h".to_string(),
        port: 4000,
        description: None,
        auto_connect: true,
        timeout_secs: 5,
        use_tls: true,
    })
    .unwrap();
    assert_eq!(w.description, Some(String::new()));
    assert!(w.auto_connect && w.use_tls);
    assert_eq!(w.timeout_secs, 5);

    let id = uuid::Uuid::new_v4();
    let w = world_from_update_request(UpdateWorldRequest {
        id: id.to_string(),
        name: "M".to_string(),
        host: "h".to_string(),
        port: 4000,
        description: Some("d".to_string()),
        auto_connect: false,
        timeout_secs: 30,
        use_tls: false,
    })
    .unwrap();
    assert_eq!(w.id, id.as_u128());
    let e = world_from_update_request(UpdateWorldRequest {
        id: "not-a-uuid".to_string(),
        name: "M".to_string(),
        host: "h".to_string(),
        port: 4000,
        description: None,
        auto_connect: false,
        timeout_secs: 30,
        use_tls: false,
    })
    .unwrap_err();
    assert!(e.starts_with("Invalid world ID: "));
    let e = world_from_update_request(UpdateWorldRequest {
        id: id.to_string(),
        name: "M".to_string(),
        host: "h".to_string(),
        port: 0,
        description: None,
        auto_connect: false,
        timeout_secs: 30,
        use_tls: false,
    })
    .unwrap_err();
    assert_eq!(e, "Failed to update world: Invalid port: 0 (must be 1-65535)");
}

#[test]
fn log_file_names_and_text() {
    assert_eq!(log_filename("Mud", "20240101-120000", "html"), "Mud_20240101-120000.html");
    assert_eq!(log_filename("Mud", "T", "raw"), "Mud_T.txt");
    assert_eq!(log_filename("Mud", "T", "plain"), "Mud_T.log");
    let g = generate_log_filename("Mud", "raw");
    assert!(g.starts_with("Mud_") && g.ends_with(".txt") && g.len() == "Mud_20240101-120000.txt".len());

    assert_eq!(
        log_header_at("Mud", "plain", "2024-01-01 12:00:00"),
        "=== MACMush Log Session ===\nWorld: Mud\nStarted: 2024-01-01 12:00:00\nFormat: plain\n==============================\n\n"
    );
    let h = log_header_at("Mud", "html", "S");
    assert!(h.starts_with("<!DOCTYPE html>\n<html>\n<head>\n"));
    assert!(h.contains("<title>Mud - Log Session</title>\n"));
    assert!(h.ends_with("<p>Started: S</p><hr>\n<pre>\n"));
    assert!(log_header("Mud", "plain").starts_with("=== MACMush Log Session ===\nWorld: Mud\nStarted: "));

    assert_eq!(
        log_footer_at("plain", "E"),
        "\n==============================\nEnded: E\n==============================\n"
    );
    assert_eq!(log_footer_at("html", "E"), "</pre>\n<hr>\n<p>Ended: E</p>\n</body>\n</html>\n");

    assert_eq!(
        log_entry_at("html", "command", "12:00:00", "a < b & c > d"),
        "<span class=\"timestamp\">[12:00:00]</span> <span class=\"command\">a &lt; b &amp; c &gt; d</span>\n"
    );
    assert_eq!(
        log_entry_at("html", "other", "t", "x"),
        "<span class=\"timestamp\">[t]</span> <span class=\"\">x</span>\n"
    );
    assert_eq!(log_entry_at("raw", "command", "t", "\x1b[1mx"), "\x1b[1mx\n");
    assert_eq!(log_entry_at("plain", "command", "t", "x"), "[t] x\n");
    assert!(log_entry("plain", "system", "hello").ends_with("] hello\n"));
}

#[test]
fn import_summary_counts_sections() {
    let mut wf = WorldFile::new();
    let r = import_result(&wf, "{}".to_string());
    assert!(r.success);
    assert_eq!(r.world_name, None);
    assert_eq!(r.trigger_count, 0);
    wf.world = Some(WorldConfig {
        site: None,
        port: None,
        player: None,
        password: None,
        name: Some("Aardwolf".to_string()),
        use_mxp: None,
        enable_triggers: None,
        enable_aliases: None,
        enable_timers: None,
        enable_scripts: None,
        enable_speed_walk: None,
        script_language: None,
        log_file_name: None,
        auto_log: None,
    });
    wf.triggers = Some(TriggersList { items: vec![] });
    let r = import_result(&wf, "json".to_string());
    assert_eq!(r.world_name, Some("Aardwolf".to_string()));
    assert_eq!(r.trigger_count, 0);
    assert_eq!(r.world_file, "json");
}

#[test]
fn loading_automation_adds_everything_in_order() {
    let mut s = SessionCore::new(World::new("M", "h", 1).unwrap());
    let t1 = Trigger::new("A", "a", TriggerAction::SendCommand("x".to_string())).unwrap();
    let t2 = Trigger::new("B", "b", TriggerAction::SendCommand("y".to_string())).unwrap();
    let id2 = t2.id;
    let h = AutoHighlight::new("H", "h", "#123456").unwrap();
    let tm = Timer::new("T", TimerType::Repeating, 50, TimerAction::SendCommand("z".to_string()));
    let tid = tm.id;
    let counts = load_automation_into_session(&mut s, vec![t1, t2], vec![], vec![tm], vec![h], 10);
    assert_eq!(counts, (2, 0, 1, 1));
    assert_eq!(s.get_trigger(id2).unwrap().name, "B");
    assert_eq!(s.get_timer(tid).unwrap().schedule.next_fire, Some(60));
}

#[test]
fn timer_update_changes_named_fields_in_order() {
    let t = Timer::new("T", TimerType::OneShot, 5, TimerAction::SendCommand("a".to_string()));
    let id = t.id;
    let u = TimerUpdate {
        name: Some("U".to_string()),
        timer_type: Some("Repeating".to_string()),
        action: Some("send_commands".to_string()),
        command: None,
        commands: Some(vec!["x".to_string(), "y".to_string()]),
        script: None,
        enabled: Some(false),
    };
    let t2 = timer_with_update(t, u).unwrap();
    assert_eq!(t2.id, id);
    assert_eq!(t2.name, "U");
    assert_eq!(t2.schedule.timer_type, TimerType::Repeating);
    assert!(!t2.schedule.enabled);
    assert_eq!(t2.interval_nanos, 5);
    assert_eq!(t2.action.commands(), vec!["x".to_string(), "y".to_string()]);
    let bad = TimerUpdate {
        name: None,
        timer_type: Some("daily".to_string()),
        action: None,
        command: None,
        commands: None,
        script: None,
        enabled: None,
    };
    assert_eq!(timer_with_update(t2, bad).unwrap_err(), "Invalid timer type");
}

#[test]
fn item_ids_are_read_or_refused_with_their_kind() {
    assert_eq!(item_id_from("00000000-0000-0000-0000-00000000002a", "timer"), Ok(42));
    assert!(item_id_from("nope", "alias").unwrap_err().starts_with("Invalid alias ID: "));
}
