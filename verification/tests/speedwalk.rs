use macmush::speedwalk::Speedwalk;

fn strings(v: &[&str]) -> Vec<String> {
    v.iter().map(|s| s.to_string()).collect()
}

#[test]
fn test_create_speedwalk() {
    let sw = Speedwalk::new();
    assert!(sw.is_enabled());
    assert!(!sw.get_directions().is_empty());
}

#[test]
fn test_simple_direction() {
    let sw = Speedwalk::new();
    assert_eq!(sw.try_expand("n"), Some(vec!["north".to_string()]));
    assert_eq!(sw.try_expand("s"), Some(vec!["south".to_string()]));
    assert_eq!(sw.try_expand("ne"), Some(vec!["northeast".to_string()]));
}

#[test]
fn test_full_direction_name() {
    let sw = Speedwalk::new();
    assert_eq!(sw.try_expand("north"), Some(vec!["north".to_string()]));
    assert_eq!(sw.try_expand("southeast"), Some(vec!["southeast".to_string()]));
}

#[test]
fn test_counted_direction() {
    let sw = Speedwalk::new();
    assert_eq!(sw.try_expand("4n"), Some(strings(&["north", "north", "north", "north"])));
    assert_eq!(sw.try_expand("3e"), Some(strings(&["east", "east", "east"])));
}

#[test]
fn test_multiple_directions() {
    let sw = Speedwalk::new();
    assert_eq!(
        sw.try_expand("4n 5w"),
        Some(strings(&["north", "north", "north", "north", "west", "west", "west", "west", "west"]))
    );
}

#[test]
fn test_mixed_formats() {
    let sw = Speedwalk::new();
    assert_eq!(
        sw.try_expand("3n 2ne u"),
        Some(strings(&["north", "north", "north", "northeast", "northeast", "up"]))
    );
}

#[test]
fn test_non_speedwalk_command() {
    let sw = Speedwalk::new();
    assert_eq!(sw.try_expand("look"), None);
    assert_eq!(sw.try_expand("say hello"), None);
    assert_eq!(sw.try_expand("kill orc"), None);
    assert_eq!(sw.try_expand("get sword"), None);
}

#[test]
fn test_invalid_patterns() {
    let sw = Speedwalk::new();
    assert_eq!(sw.try_expand("4x"), None);
    assert_eq!(sw.try_expand("0n"), None);
    assert_eq!(sw.try_expand(""), None);
}

#[test]
fn test_large_count() {
    let sw = Speedwalk::new();
    let result = sw.try_expand("50n");
    assert!(result.is_some());
    assert_eq!(result.unwrap().len(), 50);
}

#[test]
fn test_excessive_count() {
    let sw = Speedwalk::new();
    assert_eq!(sw.try_expand("1001n"), None);
}

#[test]
fn test_disabled_speedwalk() {
    let mut sw = Speedwalk::new();
    sw.set_enabled(false);
    assert_eq!(sw.try_expand("4n"), None);
    assert!(!sw.is_enabled());
}

#[test]
fn test_custom_direction() {
    let mut sw = Speedwalk::new();
    sw.add_direction("in", "enter");
    assert_eq!(sw.try_expand("3in"), Some(strings(&["enter", "enter", "enter"])));
}

#[test]
fn test_remove_direction() {
    let mut sw = Speedwalk::new();
    assert!(sw.remove_direction("n"));
    assert_eq!(sw.try_expand("n"), None);
    assert_eq!(sw.try_expand("4n"), None);
}

#[test]
fn test_vertical_directions() {
    let sw = Speedwalk::new();
    assert_eq!(sw.try_expand("3u 2d"), Some(strings(&["up", "up", "up", "down", "down"])));
}

#[test]
fn test_single_digit_no_direction() {
    let sw = Speedwalk::new();
    assert_eq!(sw.try_expand("4"), None);
    assert_eq!(sw.try_expand("123"), None);
}

#[test]
fn test_whitespace_handling() {
    let sw = Speedwalk::new();
    assert_eq!(
        sw.try_expand("  4n  5w  "),
        Some(strings(&["north", "north", "north", "north", "west", "west", "west", "west", "west"]))
    );
}

#[test]
fn test_complex_path() {
    let sw = Speedwalk::new();
    let result = sw.try_expand("2n 3e 1s 2w u");
    assert!(result.is_some());
    let commands = result.unwrap();
    assert_eq!(commands.len(), 2 + 3 + 1 + 2 + 1);
    assert_eq!(commands[0], "north");
    assert_eq!(commands[1], "north");
    assert_eq!(commands[2], "east");
    assert_eq!(commands[8], "up");
}

#[test]
fn speedwalk_largest_count_accepted() {
    let sw = Speedwalk::new();
    assert_eq!(sw.try_expand("1000s").map(|v| v.len()), Some(1000));
}

#[test]
fn speedwalk_one_bad_token_refuses_whole_command() {
    let sw = Speedwalk::new();
    assert_eq!(sw.try_expand("3n look"), None);
}

#[test]
fn speedwalk_counted_token_parts() {
    let sw = Speedwalk::new();
    assert_eq!(sw.parse_counted_direction("12sw"), Some((12, "sw")));
    assert_eq!(sw.parse_counted_direction("sw"), None);
    assert_eq!(sw.parse_token("2ne"), Some(strings(&["northeast", "northeast"])));
}

#[test]
fn run_together_directions_expand() {
    let sw = Speedwalk::new();
    assert_eq!(
        sw.try_expand("4n2e"),
        Some(vec!["north", "north", "north", "north", "east", "east"].into_iter().map(String::from).collect())
    );
    assert_eq!(
        sw.try_expand("n2ne u"),
        Some(vec!["north", "northeast", "northeast", "up"].into_iter().map(String::from).collect())
    );
    assert_eq!(sw.try_expand("4n2"), None);
    assert_eq!(sw.try_expand("look2"), None);
    assert_eq!(sw.try_expand("2n0e"), None);
    assert_eq!(sw.parse_word("3s1w"), Some(vec!["south", "south", "south", "west"].into_iter().map(String::from).collect()));
    assert_eq!(sw.parse_token("3s1w"), None);
}

#[test]
fn joined_speedwalks_concatenate() {
    let sw = Speedwalk::new();
    let a = sw.try_expand("2n").unwrap();
    let b = sw.try_expand("3e").unwrap();
    let mut ab = a.clone();
    ab.extend(b);
    assert_eq!(sw.try_expand("2n 3e"), Some(ab));
    assert_eq!(sw.try_expand("2n look"), None);
}
