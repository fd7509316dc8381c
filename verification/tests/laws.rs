use chill_bevy_console::aliases::ConsoleAliases;
use chill_bevy_console::buffer::{ConsoleBuffer, ConsoleLevel, ConsoleLineSource};
use chill_bevy_console::completion::rank_completion_items;
use chill_bevy_console::saving::{SaveInputs, SaveStep, SaveTracker, SAVE_DEBOUNCE_NANOS};
use chill_bevy_console::state::ConsoleState;
use chill_bevy_console::view::is_highlighted;
use chill_bevy_console::{CompletionItem, ParsedInput};

#[test]
fn cursor_is_clamped_to_a_char_boundary() {
    assert_eq!(ParsedInput::parse_at("é", 1).cursor, 0);
    assert_eq!(ParsedInput::parse_at("ab", usize::MAX).cursor, 2);
    assert_eq!(ParsedInput::parse_at("aé b", 2).cursor, 1);
}

#[test]
fn active_argument_follows_the_active_token() {
    assert_eq!(ParsedInput::parse("map ").active_argument_index(), Some(0));
    assert_eq!(ParsedInput::parse("map").active_argument_index(), None);
    assert_eq!(ParsedInput::parse_at("map a b", 5).active_argument_index(), Some(0));
}

#[test]
fn plain_input_splits_like_split_whitespace() {
    let source = "  teleport\tplayer   12  ";
    let parsed = ParsedInput::parse(source);
    assert!(parsed.error.is_none());
    let values: Vec<&str> = parsed.tokens.iter().map(|t| t.value.as_str()).collect();
    assert_eq!(values, source.split_whitespace().collect::<Vec<_>>());
    for t in &parsed.tokens {
        assert!(t.quote.is_none());
        assert_eq!(t.value_range, t.range);
        assert_eq!(&source[t.range.clone()], t.value);
    }
}

#[test]
fn tokens_are_ordered_and_blank_input_has_no_command() {
    let parsed = ParsedInput::parse("say \"a b\" 'c' d");
    for pair in parsed.tokens.windows(2) {
        assert!(pair[0].range.end <= pair[1].range.start);
    }
    assert_eq!(parsed.tokens[1].value_range.start, parsed.tokens[1].range.start + 1);
    assert_eq!(ParsedInput::parse(" \t ").command(), None);
}

#[test]
fn replacement_range_is_on_char_boundaries() {
    let source = "map é";
    let parsed = ParsedInput::parse(source);
    let range = parsed.replacement_range();
    assert_eq!(range, 4..6);
    assert!(source.is_char_boundary(range.start) && source.is_char_boundary(range.end));
}

#[test]
fn buffer_ids_increase_and_keep_the_newest_lines() {
    let mut buffer = ConsoleBuffer::new(3);
    buffer.push(ConsoleLevel::Info, ConsoleLineSource::System, "a\nb");
    buffer.push(ConsoleLevel::Warn, ConsoleLineSource::System, "c\nd");
    let lines = buffer.lines();
    let texts: Vec<&str> = lines.iter().map(|l| l.text.as_str()).collect();
    assert_eq!(texts, ["b", "c", "d"]);
    let ids: Vec<u64> = lines.iter().map(|l| l.id).collect();
    assert_eq!(ids, [2, 3, 4]);
    assert_eq!(lines[1].level, ConsoleLevel::Warn);
}

#[test]
fn alias_listing_matches_lookups() {
    let mut aliases = ConsoleAliases::new();
    aliases.set("Quick", "save slot_1");
    aliases.set("back", "load");
    assert_eq!(aliases.len(), 2);
    aliases.set("QUICK", "save slot_2");
    assert_eq!(aliases.len(), 2);
    let listed = aliases.iter();
    assert_eq!(
        listed,
        [("back".to_string(), "load".to_string()), ("quick".to_string(), "save slot_2".to_string())]
    );
    for (name, expansion) in &listed {
        assert_eq!(aliases.get(name), Some(expansion.as_str()));
    }
}

#[test]
fn ranking_keeps_exactly_the_matches_best_first() {
    let items = vec![
        CompletionItem::from_label("r_map"),
        CompletionItem::from_label("quit"),
        CompletionItem::from_label("map"),
        CompletionItem::from_label("Mapper"),
    ];
    let ranked = rank_completion_items(items, "map", 0..3);
    let labels: Vec<&str> = ranked.iter().map(|i| i.label.as_str()).collect();
    assert_eq!(labels, ["Mapper", "map", "r_map"]);
}

#[test]
fn history_highlight_follows_the_recalled_command() {
    let mut buffer = ConsoleBuffer::default();
    buffer.push(ConsoleLevel::Info, ConsoleLineSource::System, "> first");
    let first_id = buffer.last_line().unwrap().id;
    buffer.push(ConsoleLevel::Info, ConsoleLineSource::System, "> second");
    let second_id = buffer.last_line().unwrap().id;

    let mut state = ConsoleState::default();
    state.open = true;
    state.cmd_history = vec!["first".into(), "second".into()];
    state.cmd_history_line_ids = vec![Some(first_id), Some(second_id)];
    state.cmd_history_index = Some(1);
    let highlighted = |state: &ConsoleState| -> Vec<String> {
        buffer
            .lines()
            .iter()
            .filter(|line| is_highlighted(state, line.id))
            .map(|line| line.text.clone())
            .collect()
    };
    assert_eq!(highlighted(&state), ["> second"]);

    state.cmd_history_index = Some(0);
    assert_eq!(highlighted(&state), ["> first"]);
}

#[test]
fn every_level_name_reads_back_in_any_case() {
    for level in ConsoleLevel::all() {
        let name = level.as_str();
        assert_eq!(ConsoleLevel::parse_name(name), Some(level));
        assert_eq!(ConsoleLevel::parse_name(&name.to_ascii_uppercase()), Some(level));
        assert_eq!(name.parse::<ConsoleLevel>(), Ok(level));
    }
    assert_eq!(ConsoleLevel::parse_name("Warning"), Some(ConsoleLevel::Warn));
}

#[test]
fn transcript_saves_once_a_change_is_due() {
    let settings = chill_bevy_console::persistence::PersistenceSettings::default();
    let frame = |revision: u64, buffer_changed: bool, writing: bool, now: u128| SaveInputs {
        revision,
        settings,
        path_changed: false,
        buffer_changed,
        writing,
        now,
    };
    let mut saver = SaveTracker::new();
    assert_eq!(saver.step(&frame(0, false, false, 0)), SaveStep::Remember);
    assert_eq!(saver.step(&frame(0, false, false, 10)), SaveStep::Idle);
    assert_eq!(saver.step(&frame(1, false, false, 100)), SaveStep::Remember);
    assert_eq!(saver.save_at, 100 + SAVE_DEBOUNCE_NANOS);
    assert_eq!(saver.step(&frame(1, true, false, 200)), SaveStep::Remember);
    assert_eq!(saver.save_at, 100 + SAVE_DEBOUNCE_NANOS);
    assert_eq!(saver.step(&frame(1, false, false, 150 + SAVE_DEBOUNCE_NANOS)), SaveStep::Write);
    assert_eq!(saver.step(&frame(1, false, false, 200 + SAVE_DEBOUNCE_NANOS)), SaveStep::Idle);
    assert_eq!(saver.step(&frame(2, false, true, 0)), SaveStep::Remember);
    assert_eq!(saver.step(&frame(2, false, true, 10 * SAVE_DEBOUNCE_NANOS)), SaveStep::Idle);
    assert_eq!(saver.step(&frame(2, false, false, 10 * SAVE_DEBOUNCE_NANOS)), SaveStep::Write);
}
