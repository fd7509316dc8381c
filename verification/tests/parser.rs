use chill_bevy_console::{ParsedInput, QuoteStyle};

#[test]
fn parses_plain_words() {
    let parsed = ParsedInput::parse("teleport 12 -4");
    assert_eq!(parsed.command(), Some("teleport"));
    assert_eq!(
        parsed.tokens.iter().map(|t| &t.value).collect::<Vec<_>>(),
        ["teleport", "12", "-4"]
    );
    assert_eq!(parsed.active_argument_index(), Some(1));
}

#[test]
fn parses_quotes_and_escapes() {
    let parsed = ParsedInput::parse(r#"say "hello world" two\ words"#);
    assert_eq!(
        parsed.tokens.iter().map(|t| &t.value).collect::<Vec<_>>(),
        ["say", "hello world", "two words"]
    );
    assert_eq!(parsed.tokens[1].quote, Some(QuoteStyle::Double));
}

#[test]
fn preserves_a_replacement_range() {
    let parsed = ParsedInput::parse_at("map de", 6);
    assert_eq!(parsed.active_argument_index(), Some(0));
    assert_eq!(parsed.active_fragment(), "de");
    assert_eq!(parsed.replacement_range(), 4..6);
}

#[test]
fn uses_the_cursor_position_between_tokens_for_argument_completion() {
    let source = "set  render.max_fps 60";
    let cursor = source.find("render").unwrap() - 1;
    let parsed = ParsedInput::parse_at(source, cursor);

    assert_eq!(parsed.active_argument_index(), Some(0));
    assert_eq!(parsed.replacement_range(), cursor..cursor);
}

#[test]
fn reports_unterminated_quote_without_discarding_token() {
    let parsed = ParsedInput::parse("say 'hello");
    assert_eq!(parsed.tokens[1].value, "hello");
    assert_eq!(
        parsed.error.unwrap().message,
        "unterminated quoted argument"
    );
}

#[test]
fn trailing_backslash_is_reported_with_its_byte_range() {
    let parsed = ParsedInput::parse("echo a\\");
    let error = parsed.error.unwrap();
    assert_eq!(error.message, "input ends with an escape character");
    assert_eq!(error.range, 6..7);
    assert_eq!(parsed.tokens[1].value, "a");
}

#[test]
fn ranges_are_byte_offsets_for_multibyte_text() {
    let parsed = ParsedInput::parse("say héllo 'wörld'");
    assert_eq!(parsed.tokens[1].range, 4..10);
    assert_eq!(parsed.tokens[2].range, 11..19);
    assert_eq!(parsed.tokens[2].value_range, 12..18);
    assert_eq!(parsed.tokens[2].value, "wörld");
}

#[test]
fn cursor_inside_a_character_moves_back_to_its_start() {
    // 'é' occupies bytes 5..7; byte 6 is inside it.
    let parsed = ParsedInput::parse_at("say héllo", 6);
    assert_eq!(parsed.cursor, 5);
    let parsed = ParsedInput::parse_at("say", 99);
    assert_eq!(parsed.cursor, 3);
}

#[test]
fn empty_and_blank_input_have_no_tokens() {
    let parsed = ParsedInput::parse("");
    assert!(parsed.tokens.is_empty());
    assert_eq!(parsed.command(), None);
    assert_eq!(parsed.active_argument_index(), None);
    let parsed = ParsedInput::parse("   \t ");
    assert!(parsed.tokens.is_empty());
    assert_eq!(parsed.replacement_range(), 5..5);
}

#[test]
fn unicode_whitespace_separates_tokens() {
    let parsed = ParsedInput::parse("a\u{3000}b\u{a0}c");
    assert_eq!(
        parsed.tokens.iter().map(|t| t.value.as_str()).collect::<Vec<_>>(),
        ["a", "b", "c"]
    );
}

#[test]
fn whitespace_classification_matches_std() {
    for code in 0u32..0x3100 {
        if let Some(c) = char::from_u32(code) {
            assert_eq!(chill_bevy_console::text::char_is_whitespace(c), c.is_whitespace(), "{code:x}");
        }
    }
}

#[test]
fn single_quotes_keep_double_quotes_and_escapes_inside() {
    let parsed = ParsedInput::parse(r#"echo 'say "hi"' 'it\'s'"#);
    assert_eq!(parsed.tokens[1].value, r#"say "hi""#);
    assert_eq!(parsed.tokens[2].value, "it's");
    assert_eq!(parsed.tokens[2].quote, Some(QuoteStyle::Single));
    assert!(parsed.error.is_none());
}

fn formatted(text: &str, quote: Option<char>) -> String {
    let chars: Vec<char> = text.chars().collect();
    chill_bevy_console::state::format_completion_chars(&chars, quote).into_iter().collect()
}

#[test]
fn formatted_candidates_read_back_as_one_argument() {
    for value in ["my test map", "plain", "a \"b\\c", "it's"] {
        let line = format!("map {} now", formatted(value, None));
        let parsed = ParsedInput::parse(&line);
        assert!(parsed.error.is_none());
        assert_eq!(parsed.tokens[1].value, value);
        assert_eq!(parsed.tokens[2].value, "now");
    }
    assert_eq!(formatted("my test map", None), "\"my test map\"");
    assert_eq!(formatted("plain", None), "plain");
}

#[test]
fn escaped_candidates_read_back_inside_an_open_quote() {
    let line = format!("say '{}'", formatted("it's \\ fine", Some('\'')));
    let parsed = ParsedInput::parse(&line);
    assert!(parsed.error.is_none());
    assert_eq!(parsed.tokens[1].value, "it's \\ fine");
    assert_eq!(parsed.tokens[1].quote, Some(QuoteStyle::Single));
}
