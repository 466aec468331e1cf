use macmush::keypad::{KeypadKey, KeypadMapping, KeypadModifier};
use macmush::commands::{keypad_mappings, keypad_press_from};

#[test]
fn test_keypad_key_from_str() {
    assert_eq!(KeypadKey::from_str("0"), Some(KeypadKey::Num0));
    assert_eq!(KeypadKey::from_str("num5"), Some(KeypadKey::Num5));
    assert_eq!(KeypadKey::from_str("."), Some(KeypadKey::Dot));
    assert_eq!(KeypadKey::from_str("slash"), Some(KeypadKey::Slash));
    assert_eq!(KeypadKey::from_str("Enter"), Some(KeypadKey::Enter));
    assert_eq!(KeypadKey::from_str("invalid"), None);
}

#[test]
fn test_default_mappings() {
    let mapping = KeypadMapping::new();

    assert_eq!(mapping.get_command(KeypadKey::Num8, KeypadModifier::Plain), Some("north"));
    assert_eq!(mapping.get_command(KeypadKey::Num2, KeypadModifier::Plain), Some("south"));
    assert_eq!(mapping.get_command(KeypadKey::Num4, KeypadModifier::Plain), Some("west"));
    assert_eq!(mapping.get_command(KeypadKey::Num6, KeypadModifier::Plain), Some("east"));

    assert_eq!(mapping.get_command(KeypadKey::Num7, KeypadModifier::Plain), Some("northwest"));
    assert_eq!(mapping.get_command(KeypadKey::Num9, KeypadModifier::Plain), Some("northeast"));
    assert_eq!(mapping.get_command(KeypadKey::Num1, KeypadModifier::Plain), Some("southwest"));
    assert_eq!(mapping.get_command(KeypadKey::Num3, KeypadModifier::Plain), Some("southeast"));

    assert_eq!(mapping.get_command(KeypadKey::Num5, KeypadModifier::Plain), Some("look"));
    assert_eq!(mapping.get_command(KeypadKey::Num0, KeypadModifier::Plain), Some("examine"));
    assert_eq!(mapping.get_command(KeypadKey::Plus, KeypadModifier::Plain), Some("up"));
    assert_eq!(mapping.get_command(KeypadKey::Dot, KeypadModifier::Plain), Some("down"));
}

#[test]
fn test_ctrl_mappings() {
    let mapping = KeypadMapping::new();

    assert_eq!(mapping.get_command(KeypadKey::Num8, KeypadModifier::Ctrl), Some("flee"));
    assert_eq!(mapping.get_command(KeypadKey::Num5, KeypadModifier::Ctrl), Some("rest"));
    assert_eq!(mapping.get_command(KeypadKey::Plus, KeypadModifier::Ctrl), Some("climb up"));
}

#[test]
fn test_set_command() {
    let mut mapping = KeypadMapping::new();

    mapping.set_command(KeypadKey::Num8, KeypadModifier::Plain, "n".to_string());
    assert_eq!(mapping.get_command(KeypadKey::Num8, KeypadModifier::Plain), Some("n"));

    mapping.set_command(KeypadKey::Num0, KeypadModifier::Ctrl, "search".to_string());
    assert_eq!(mapping.get_command(KeypadKey::Num0, KeypadModifier::Ctrl), Some("search"));
}

#[test]
fn test_remove_command() {
    let mut mapping = KeypadMapping::new();

    assert!(mapping.has_mapping(KeypadKey::Num8, KeypadModifier::Plain));
    mapping.remove_command(KeypadKey::Num8, KeypadModifier::Plain);
    assert!(!mapping.has_mapping(KeypadKey::Num8, KeypadModifier::Plain));
    assert_eq!(mapping.get_command(KeypadKey::Num8, KeypadModifier::Plain), None);
}

#[test]
fn test_has_mapping() {
    let mapping = KeypadMapping::new();

    assert!(mapping.has_mapping(KeypadKey::Num8, KeypadModifier::Plain));
    assert!(mapping.has_mapping(KeypadKey::Num8, KeypadModifier::Ctrl));

    assert!(mapping.has_mapping(KeypadKey::Num4, KeypadModifier::Plain));
    assert!(!mapping.has_mapping(KeypadKey::Num4, KeypadModifier::Ctrl));
}

#[test]
fn test_get_mappings() {
    let mapping = KeypadMapping::new();

    let normal = mapping.get_normal_mappings();
    assert!(normal.len() > 0);
    assert!(normal.contains_key(&KeypadKey::Num8));

    let ctrl = mapping.get_ctrl_mappings();
    assert!(ctrl.len() > 0);
    assert!(ctrl.contains_key(&KeypadKey::Num8));
}

#[test]
fn keypad_binding_roundtrip_keeps_other_modifier() {
    let mut mapping = KeypadMapping::new();
    mapping.set_command(KeypadKey::Num4, KeypadModifier::Ctrl, "backstab".to_string());
    assert_eq!(mapping.get_command(KeypadKey::Num4, KeypadModifier::Ctrl), Some("backstab"));
    assert_eq!(mapping.get_command(KeypadKey::Num4, KeypadModifier::Plain), Some("west"));
    mapping.remove_command(KeypadKey::Num4, KeypadModifier::Ctrl);
    assert_eq!(mapping.get_command(KeypadKey::Num4, KeypadModifier::Ctrl), None);
}

#[test]
fn keypad_key_names() {
    assert_eq!(KeypadKey::Num8.to_string(), "8");
    assert_eq!(KeypadKey::Enter.to_string(), "Enter");
}

#[test]
fn keypad_press_request_reads_key_and_modifier() {
    assert_eq!(keypad_press_from("NUM8", true), Ok((KeypadKey::Num8, KeypadModifier::Ctrl)));
    assert_eq!(keypad_press_from("plus", false), Ok((KeypadKey::Plus, KeypadModifier::Plain)));
    assert_eq!(keypad_press_from("foo", false), Err("Invalid keypad key: foo".to_string()));
}

#[test]
fn keypad_mappings_list_every_binding() {
    let mapping = KeypadMapping::new();
    let m = keypad_mappings(&mapping);
    assert_eq!(m.normal.len(), 16);
    assert_eq!(m.ctrl.len(), 7);
    assert!(m.normal.iter().any(|r| r.key == "8" && r.command == "north"));
    assert!(m.ctrl.iter().any(|r| r.key == "0" && r.command == "get all"));
}

#[test]
fn key_labels_read_back() {
    for k in [
        KeypadKey::Num0,
        KeypadKey::Num5,
        KeypadKey::Num9,
        KeypadKey::Dot,
        KeypadKey::Slash,
        KeypadKey::Star,
        KeypadKey::Minus,
        KeypadKey::Plus,
        KeypadKey::Enter,
    ] {
        assert_eq!(KeypadKey::from_str(k.to_string()), Some(k));
    }
}
