use chill_bevy_console::Args;

fn args(s: &str) -> Args {
    Args::from(s.split_whitespace().map(str::to_string).collect::<Vec<_>>())
}

// ── get ──────────────────────────────────────────────────────────────────

#[test]
fn get_returns_str_at_index() {
    let a = args("foo bar baz");
    assert_eq!(a.get(0), Some("foo"));
    assert_eq!(a.get(2), Some("baz"));
}

#[test]
fn get_out_of_bounds_returns_none() {
    let a = args("foo");
    assert_eq!(a.get(1), None);
}

#[test]
fn get_on_empty_args_returns_none() {
    let a = Args::from(vec![]);
    assert_eq!(a.get(0), None);
}

// ── parse ─────────────────────────────────────────────────────────────────

#[test]
fn parse_valid_integer() {
    let a = args("42");
    assert_eq!(a.parse::<i32>(0), Some(42));
}

#[test]
fn parse_valid_float() {
    let a = args("3.14");
    assert!(matches!(a.parse::<f32>(0), Some(v) if (v - 3.14_f32).abs() < 1e-5));
}

#[test]
fn parse_invalid_returns_none() {
    let a = args("notanumber");
    assert_eq!(a.parse::<i32>(0), None);
}

#[test]
fn parse_out_of_bounds_returns_none() {
    let a = args("42");
    assert_eq!(a.parse::<i32>(1), None);
}

// ── rest ──────────────────────────────────────────────────────────────────

#[test]
fn rest_from_zero_joins_all() {
    let a = args("hello world");
    assert_eq!(a.rest(0), "hello world");
}

#[test]
fn rest_skips_leading_args() {
    let a = args("cmd foo bar baz");
    assert_eq!(a.rest(1), "foo bar baz");
}

#[test]
fn rest_past_end_returns_empty() {
    let a = args("foo");
    assert_eq!(a.rest(5), "");
}

#[test]
fn rest_on_empty_args_returns_empty() {
    let a = Args::from(vec![]);
    assert_eq!(a.rest(0), "");
}

// ── deref / slice methods ─────────────────────────────────────────────────

#[test]
fn len_and_is_empty() {
    let empty = Args::from(vec![]);
    let one = args("x");
    assert!(empty.is_empty());
    assert_eq!(empty.len(), 0);
    assert!(!one.is_empty());
    assert_eq!(one.len(), 1);
}

#[test]
fn iter_via_deref() {
    let a = args("a b c");
    let collected: Vec<&str> = a.iter().map(String::as_str).collect();
    assert_eq!(collected, ["a", "b", "c"]);
}

#[test]
fn join_via_deref() {
    let a = args("hello world");
    assert_eq!(a.join("-"), "hello-world");
}

// ── arguments read from an input line ─────────────────────────────────────

#[test]
fn parsed_arguments_skip_the_command_and_keep_raw_text() {
    let parsed = chill_bevy_console::ParsedInput::parse(r#"alias set greeting echo "hello world""#);
    let a = Args::from_parsed(&parsed);
    assert_eq!(a.len(), 4);
    assert_eq!(a.get(0), Some("set"));
    assert_eq!(a.get(3), Some("hello world"));
    assert_eq!(a.raw_rest(2), r#"echo "hello world""#);
    assert_eq!(a.rest(2), "echo hello world");
    assert_eq!(a.raw_rest(9), "");
}

#[test]
fn raw_rest_of_plain_values_joins_them() {
    let a = args("one two three");
    assert_eq!(a.raw_rest(1), "two three");
}
