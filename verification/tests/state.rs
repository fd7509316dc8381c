use chill_bevy_console::state::ConsoleState;
use chill_bevy_console::CompletionItem;

fn item(label: &str, replace: std::ops::Range<usize>) -> CompletionItem {
    CompletionItem::from_label(label).with_replace(replace)
}

#[test]
fn completion_in_the_middle_preserves_following_input_and_cursor_position() {
    let mut state = ConsoleState::default();
    state.replace_input("map fo now".into());
    state.completion_items = vec![item("forest", 4..6)];

    assert_eq!(state.apply_selected_completion(), Some(10));
    assert_eq!(state.input, "map forest now");
}

#[test]
fn completion_places_the_cursor_after_a_closing_quote() {
    let mut state = ConsoleState::default();
    state.replace_input("map \"fo\" now".into());
    state.completion_items = vec![item("forest", 5..7)];

    assert_eq!(state.apply_selected_completion(), Some(12));
    assert_eq!(state.input, "map \"forest\" now");
}

#[test]
fn completion_quotes_argument_values_containing_spaces() {
    let mut state = ConsoleState::default();
    state.replace_input("map fo".into());
    state.completion_items = vec![item("forest path", 4..6)];

    assert_eq!(state.apply_selected_completion(), Some(18));
    assert_eq!(state.input, "map \"forest path\" ");
}

#[test]
fn completion_closes_an_unterminated_quote() {
    let mut state = ConsoleState::default();
    state.replace_input("map \"fo".into());
    state.completion_items = vec![item("forest path", 5..7)];

    assert!(state.apply_selected_completion().is_some());
    assert_eq!(state.input, "map \"forest path\" ");
}

#[test]
fn invalid_completion_ranges_are_ignored_without_panicking() {
    let mut state = ConsoleState::default();
    state.replace_input("map fo".into());
    let invalid_start = state.input.len();
    state.completion_items = vec![item("forest", invalid_start..4)];

    assert_eq!(state.apply_selected_completion(), None);
    assert_eq!(state.input, "map fo");
}

#[test]
fn completion_navigation_crosses_pages_and_wraps() {
    let mut state = ConsoleState {
        completion_items: (0..7).map(|index| item(&format!("item-{index}"), 0..0)).collect(),
        ..ConsoleState::default()
    };

    assert_eq!(state.completion_page_range(3), 0..3);
    state.match_index = 2;
    state.select_next_completion();
    assert_eq!(state.match_index, 3);
    assert_eq!(state.completion_page_range(3), 3..6);

    state.match_index = 6;
    assert_eq!(state.completion_page_range(3), 6..7);
    state.select_next_completion();
    assert_eq!(state.match_index, 0);
    assert_eq!(state.completion_page_range(3), 0..3);

    state.select_previous_completion();
    assert_eq!(state.match_index, 6);
    assert_eq!(state.completion_page_range(3), 6..7);
}

#[test]
fn completion_page_range_is_empty_when_page_size_is_zero() {
    let state = ConsoleState { completion_items: vec![item("item", 0..0)], ..ConsoleState::default() };

    assert_eq!(state.completion_page_range(0), 0..0);
}

#[test]
fn applies_a_completion_selected_from_a_later_page() {
    let mut state = ConsoleState::default();
    state.replace_input("ma".into());
    state.completion_items = ["map", "marker", "material"].into_iter().map(|label| item(label, 0..2)).collect();
    state.match_index = 2;

    assert_eq!(state.apply_selected_completion(), Some(9));
    assert_eq!(state.input, "material ");
}

#[test]
fn recalls_matching_history() {
    let mut state = ConsoleState {
        cmd_history: vec!["map forest".into(), "set debug true".into()],
        cmd_history_line_ids: vec![None, None],
        ..ConsoleState::default()
    };
    state.replace_input("for".into());
    state.recall_history_matching_input();
    assert_eq!(state.input, "map forest");
}

#[test]
fn recorded_command_keeps_its_echo_line_for_recall_highlighting() {
    let mut state = ConsoleState::default();
    state.record_command("map forest".into(), 10);
    let index = state.take_pending_history_index("map forest").unwrap();
    state.set_history_line_id(index, 42);
    state.cmd_history_index = Some(index);

    assert_eq!(state.selected_history_line_id(), Some(42));
}

// ── further cases ──────────────────────────────────────────────────────────

#[test]
fn recording_the_newest_command_again_adds_no_entry() {
    let mut state = ConsoleState::default();
    state.record_command("help".into(), 10);
    let revision = state.command_history_revision;
    state.record_command("help".into(), 10);
    assert_eq!(state.cmd_history, vec!["help".to_string()]);
    assert_eq!(state.command_history_revision, revision);
    assert_eq!(state.pending_history_index, Some(0));
}

#[test]
fn recall_keeps_only_the_newest_commands_within_the_limit() {
    let mut state = ConsoleState::default();
    for command in ["a", "b", "c", "d"] {
        state.record_command(command.into(), 2);
    }
    assert_eq!(state.cmd_history, vec!["c".to_string(), "d".to_string()]);
    assert_eq!(state.cmd_history_line_ids.len(), 2);
}

#[test]
fn a_zero_limit_keeps_no_recall() {
    let mut state = ConsoleState::default();
    state.record_command("help".into(), 0);
    assert!(state.cmd_history.is_empty());
    assert_eq!(state.pending_history_index, None);
}

#[test]
fn pending_history_index_is_taken_once_and_only_for_its_command() {
    let mut state = ConsoleState::default();
    state.record_command("echo one".into(), 10);
    assert_eq!(state.take_pending_history_index("echo two"), None);
    assert_eq!(state.pending_history_index, Some(0));
    state.record_command("echo two".into(), 10);
    assert_eq!(state.take_pending_history_index("echo two"), Some(1));
    assert_eq!(state.take_pending_history_index("echo two"), None);
}

#[test]
fn clearing_recall_forgets_every_entry_and_moves_the_revision() {
    let mut state = ConsoleState::default();
    state.record_command("help".into(), 10);
    let revision = state.command_history_revision;
    state.clear_command_history();
    assert!(state.command_history().is_empty());
    assert!(state.cmd_history_line_ids.is_empty());
    assert_ne!(state.command_history_revision, revision);
}

#[test]
fn restoring_recall_keeps_the_newest_commands() {
    let mut state = ConsoleState::default();
    state.restore_command_history(vec!["a".into(), "b".into(), "c".into()], 2);
    assert_eq!(state.command_history(), &["b".to_string(), "c".to_string()]);
    assert_eq!(state.cmd_history_line_ids, vec![None, None]);
}

#[test]
fn page_range_holds_the_selection() {
    let mut state = ConsoleState {
        completion_items: (0..10).map(|index| item(&format!("c{index}"), 0..0)).collect(),
        ..ConsoleState::default()
    };
    for index in 0..10 {
        state.match_index = index;
        let page = state.completion_page_range(4);
        assert!(page.start <= index && index < page.end);
        assert_eq!(page.start % 4, 0);
    }
}

#[test]
fn setting_input_marks_it_changed_and_clearing_empties_it() {
    let mut state = ConsoleState::default();
    state.set_input("status".into());
    assert_eq!(state.input, "status");
    assert_eq!(state.input(), "status");
    assert!(state.completion_dirty);
    state.clear_input();
    assert_eq!(state.input, "");
}

#[test]
fn clearing_completions_resets_the_selection() {
    let mut state = ConsoleState::default();
    state.set_completions(vec![item("a", 0..0), item("b", 0..0)], 3);
    state.match_index = 1;
    state.clear_completions();
    assert!(state.completion_items.is_empty());
    assert_eq!(state.match_index, 0);
    assert_eq!(state.completion_overflow, 0);
}

#[test]
fn down_after_up_brings_the_draft_back() {
    let mut state = ConsoleState::default();
    state.cmd_history = vec!["echo older".into(), "echo newer".into()];
    state.cmd_history_line_ids = vec![None, None];
    state.set_input("ec".into());
    let up = state.history_up();
    assert_eq!(up.set_text.as_ref().map(|(t, _)| t.as_str()), Some("echo newer"));
    assert_eq!(state.input, "echo newer");
    let down = state.history_down();
    assert_eq!(down.set_text.as_ref().map(|(t, c)| (t.as_str(), *c)), Some(("ec", 2)));
    assert_eq!(state.input, "ec");
    assert!(state.cmd_history_index.is_none());
}
