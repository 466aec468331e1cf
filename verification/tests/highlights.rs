use macmush::highlights::{Highlight, HighlightManager};

#[test]
fn test_create_highlight() {
    let highlight = Highlight::new("Test", "hello", "#FF0000").unwrap();
    assert_eq!(highlight.name, "Test");
    assert_eq!(highlight.pattern, "hello");
    assert_eq!(highlight.color, "#FF0000");
    assert!(highlight.enabled);
}

#[test]
fn test_validate_color() {
    assert!(Highlight::validate_color("#FF0000").is_ok());
    assert!(Highlight::validate_color("#00FF00").is_ok());
    assert!(Highlight::validate_color("#0000FF").is_ok());
    assert!(Highlight::validate_color("FF0000").is_err());
    assert!(Highlight::validate_color("#FF00").is_err());
    assert!(Highlight::validate_color("#GG0000").is_err());
}

#[test]
fn test_highlight_matches() {
    let mut highlight = Highlight::new("Test", "hello", "#FF0000").unwrap();
    assert!(highlight.matches("hello world").unwrap());
    assert!(!highlight.matches("goodbye world").unwrap());
}

#[test]
fn test_highlight_style() {
    let mut highlight = Highlight::new("Test", "hello", "#FF0000").unwrap();
    highlight.bold = true;
    highlight.italic = true;

    let style = highlight.get_style();
    assert_eq!(style.color, "#FF0000");
    assert!(style.bold);
    assert!(style.italic);
    assert!(!style.underline);
}

#[test]
fn test_highlight_manager() {
    let mut manager = HighlightManager::new();

    let h1 = Highlight::new("Red", "hello", "#FF0000").unwrap();
    let h2 = Highlight::new("Blue", "world", "#0000FF").unwrap();

    manager.add_highlight(h1).unwrap();
    manager.add_highlight(h2).unwrap();

    assert_eq!(manager.count(), 2);
    assert_eq!(manager.enabled_count(), 2);
}

#[test]
fn test_find_all_matches() {
    let mut highlight = Highlight::new("Test", r"\d+", "#FF0000").unwrap();
    let matches = highlight.find_all_matches("HP: 100/150 MP: 50/75").unwrap();
    assert_eq!(matches.len(), 4);
}

#[test]
fn highlight_matches_of_several_come_sorted_by_start() {
    let mut manager = HighlightManager::new();
    manager.add_highlight(Highlight::new("World", "world", "#0000FF").unwrap()).unwrap();
    manager.add_highlight(Highlight::new("Hello", "hello", "#FF0000").unwrap()).unwrap();
    let m = manager.get_all_matches("hello world, hello").unwrap();
    let starts: Vec<usize> = m.iter().map(|x| x.0).collect();
    assert_eq!(starts, vec![0, 6, 13]);
    assert_eq!(m[0].2.color, "#FF0000");
    assert_eq!(m[1].2.color, "#0000FF");
    assert_eq!(m[1].1, 11);
}

#[test]
fn highlight_color_errors_name_the_reason() {
    let e = Highlight::validate_color("FF0000").unwrap_err();
    assert_eq!(e.message(), "Invalid input for field 'color': Invalid color format: 'FF0000'. Expected #RRGGBB");
    let e = Highlight::validate_color("#GG0000").unwrap_err();
    assert_eq!(e.message(), "Invalid input for field 'color': Invalid color format: '#GG0000'. Expected hex digits");
}

#[test]
fn highlight_variables_name_the_groups() {
    let mut h = Highlight::new("HP", r"HP: (\d+)/(\d+)", "#00FF00").unwrap();
    h.set_variables(vec!["hp".to_string(), "maxhp".to_string()]);
    let caps = h.extract_captures("HP: 100/150").unwrap();
    assert_eq!(caps.get("hp"), Some(&"100".to_string()));
    assert_eq!(caps.get("maxhp"), Some(&"150".to_string()));
    assert_eq!(caps.get("1"), Some(&"100".to_string()));
}

#[test]
fn highlight_remove_and_disabled_count() {
    let mut manager = HighlightManager::new();
    let mut h = Highlight::new("A", "a", "#000000").unwrap();
    h.set_enabled(false);
    let id = h.id;
    manager.add_highlight(h).unwrap();
    assert_eq!(manager.enabled_count(), 0);
    assert!(manager.remove_highlight(id).is_ok());
    assert!(manager.remove_highlight(id).is_err());
    assert_eq!(manager.count(), 0);
}
