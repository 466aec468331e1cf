use macmush::mxp::{MxpMode, MxpParser, MxpTag};

#[test]
fn test_mxp_mode_parsing() {
    let mut parser = MxpParser::new();

    let result = parser.parse_mode_sequence("\x1B[0z");
    assert!(result.is_some());
    assert_eq!(parser.mode(), MxpMode::Open);

    let result = parser.parse_mode_sequence("\x1B[1z");
    assert!(result.is_some());
    assert_eq!(parser.mode(), MxpMode::Secure);
}

#[test]
fn test_parse_bold_tag() {
    let mut parser = MxpParser::new();
    parser.enable();

    let result = parser.parse("<b>text</b>").unwrap();
    assert!(!result.is_empty());
    assert!(matches!(result[0].tag, MxpTag::Bold));
}

#[test]
fn test_parse_color_tag() {
    let mut parser = MxpParser::new();
    parser.enable();

    let result = parser.parse("<color fore=red>").unwrap();
    assert!(!result.is_empty());

    if let MxpTag::Color { fore, .. } = &result[0].tag {
        assert_eq!(fore.as_deref(), Some("red"));
    } else {
        panic!("Expected Color tag");
    }
}

#[test]
fn test_parse_send_tag() {
    let mut parser = MxpParser::new();
    parser.enable();

    let result = parser.parse("<send href='north'>Go North</send>").unwrap();
    assert!(!result.is_empty());

    if let MxpTag::Send { href, .. } = &result[0].tag {
        assert_eq!(href, "north");
    } else {
        panic!("Expected Send tag");
    }
}

#[test]
fn test_strip_tags() {
    let text = "<b>Bold</b> <i>italic</i> normal";
    let stripped = MxpParser::strip_tags(text);
    assert_eq!(stripped, "Bold italic normal");
}

#[test]
fn test_locked_mode_no_parsing() {
    let mut parser = MxpParser::new();
    parser.enable();
    parser.set_mode(MxpMode::Locked);

    let result = parser.parse("<b>text</b>").unwrap();
    assert!(result.is_empty(), "Locked mode should not parse tags");
}

#[test]
fn test_disabled_no_parsing() {
    let mut parser = MxpParser::new();
    let result = parser.parse("<b>text</b>").unwrap();
    assert!(result.is_empty(), "Disabled parser should not parse tags");
}

#[test]
fn mxp_mode_numbers() {
    assert_eq!(MxpMode::from_u8(0), Some(MxpMode::Open));
    assert_eq!(MxpMode::from_u8(1), Some(MxpMode::Secure));
    assert_eq!(MxpMode::from_u8(2), Some(MxpMode::Locked));
    assert_eq!(MxpMode::from_u8(99), None);
}

#[test]
fn mxp_will_offer_is_answered_and_enables() {
    let mut parser = MxpParser::new();
    assert!(!parser.is_enabled());
    assert_eq!(parser.handle_will_mxp().unwrap(), vec![255u8, 253, 91]);
    assert!(parser.is_enabled());
    assert!(parser.handle_do_mxp().unwrap().is_empty());
}

#[test]
fn mxp_mode_sequence_inside_text_changes_mode() {
    let mut parser = MxpParser::new();
    parser.enable();
    let tags = parser.parse("\x1B[1z<b>x</b>").unwrap();
    assert_eq!(parser.mode(), MxpMode::Secure);
    assert!(matches!(tags[0].tag, MxpTag::Bold));
}

#[test]
fn mxp_several_tags_in_order() {
    let mut parser = MxpParser::new();
    parser.enable();
    let tags = parser.parse("<i>a</i><u>b</u><br>").unwrap();
    assert!(matches!(tags[0].tag, MxpTag::Italic));
    assert!(matches!(&tags[1].tag, MxpTag::Custom { name, .. } if name == "/i"));
    assert!(matches!(tags[2].tag, MxpTag::Underline));
    assert!(matches!(tags[4].tag, MxpTag::Br));
    assert_eq!(tags.len(), 5);
}

#[test]
fn mxp_disable_stops_parsing() {
    let mut parser = MxpParser::new();
    parser.enable();
    parser.disable();
    assert!(parser.parse("<b>x</b>").unwrap().is_empty());
}

#[test]
fn mode_codes_round_trip() {
    for m in [
        MxpMode::Open,
        MxpMode::Secure,
        MxpMode::Locked,
        MxpMode::Reset,
        MxpMode::LockedOpen,
        MxpMode::LockedSecure,
        MxpMode::LockedLocked,
    ] {
        assert_eq!(MxpMode::from_u8(m.code()), Some(m));
    }
    assert_eq!(MxpMode::LockedOpen.code(), 5);
    assert_eq!(MxpMode::LockedLocked.code(), 7);
    assert_eq!(MxpMode::from_u8(4), None);
}
