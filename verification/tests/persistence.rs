use chill_bevy_console::buffer::{ConsoleBuffer, ConsoleLevel, ConsoleLineSource};
use chill_bevy_console::config::ConsoleSettings;
use chill_bevy_console::logging::{is_persistence_log_target, log_text};
use chill_bevy_console::persistence::{
    decode_text, encode_text, history_content, read_row, restore_transcript, truncate_text, PersistenceSettings,
    RecordKind,
};
use chill_bevy_console::state::ConsoleState;

fn state_with_history(commands: &[&str]) -> ConsoleState {
    let mut state = ConsoleState::default();
    for command in commands {
        state.record_command((*command).to_owned(), usize::MAX);
    }
    state
}

/// Every row is written (the save limit is lifted).
fn save(state: &ConsoleState, buffer: &ConsoleBuffer) -> String {
    history_content(state, buffer, &PersistenceSettings { max_saved_lines: usize::MAX, ..PersistenceSettings::default() })
}

/// Loads a transcript as the console does at start-up: a malformed one
/// restores nothing.
fn load_with(content: &str, settings: &ConsoleSettings) -> (ConsoleState, ConsoleBuffer) {
    restore_transcript(content, settings.max_history_lines, settings.max_command_history)
        .unwrap_or_else(|| (ConsoleState::default(), ConsoleBuffer::new(settings.max_history_lines)))
}

fn load(content: &str) -> (ConsoleState, ConsoleBuffer) {
    load_with(content, &ConsoleSettings::default())
}

fn texts(buffer: &ConsoleBuffer) -> Vec<&str> {
    buffer.lines().iter().map(|line| line.text.as_str()).collect()
}

#[test]
fn command_history_round_trips() {
    let mut saved = ConsoleBuffer::default();
    saved.push(ConsoleLevel::Info, ConsoleLineSource::CommandEcho { name: "map".into() }, "> map forest");
    saved.push(ConsoleLevel::Info, ConsoleLineSource::CommandEcho { name: "set".into() }, "> set debug true");
    let state = state_with_history(&["map forest", "set debug true"]);
    let (state, buffer) = load(&save(&state, &saved));

    assert_eq!(state.command_history(), ["map forest", "set debug true"]);
    assert_eq!(texts(&buffer), ["> map forest", "> set debug true"]);
    assert_eq!(buffer.lines()[0].source, ConsoleLineSource::CommandEcho { name: "map".into() });
    assert_eq!(buffer.lines()[1].source, ConsoleLineSource::CommandEcho { name: "set".into() });
}

#[test]
fn transcript_round_trips_interleaved_input_and_output() {
    let mut saved = ConsoleBuffer::default();
    saved.push(ConsoleLevel::Info, ConsoleLineSource::CommandEcho { name: "echo".into() }, "> echo hello");
    saved.push(ConsoleLevel::Info, ConsoleLineSource::Command { name: "echo".into() }, "hello");
    saved.push(ConsoleLevel::Warn, ConsoleLineSource::System, "low memory");
    let state = state_with_history(&["echo hello"]);
    let content = save(&state, &saved);
    assert_eq!(content, "H\techo hello\nC\techo hello\nI\thello\nW\tlow memory\n");

    let (state, buffer) = load(&content);

    assert_eq!(state.command_history(), ["echo hello"]);
    assert_eq!(texts(&buffer), ["> echo hello", "hello", "low memory"]);
    assert_eq!(buffer.lines()[1].source, ConsoleLineSource::System);
    assert_eq!(buffer.lines()[2].level, ConsoleLevel::Warn);
}

#[test]
fn transcript_round_trips_each_log_level() {
    let state = ConsoleState::default();
    let mut buffer = ConsoleBuffer::default();
    for level in ConsoleLevel::all() {
        buffer.push(level, ConsoleLineSource::System, level.as_str());
    }

    let content = save(&state, &buffer);
    assert_eq!(content, "T\ttrace\nD\tdebug\nI\tinfo\nW\twarn\nE\terror\n");
    let (_, restored_buffer) = load(&content);

    assert_eq!(restored_buffer.lines().iter().map(|line| line.level).collect::<Vec<_>>(), ConsoleLevel::all());
}

#[test]
fn old_record_formats_are_discarded() {
    let (state, buffer) = load("H\tstatus\nO\twarn\tready\n");

    assert!(state.command_history().is_empty());
    assert!(buffer.lines().is_empty());
}

#[test]
fn saved_transcript_rows_are_limited_independently_of_live_history() {
    let state = state_with_history(&["one", "two"]);
    let mut buffer = ConsoleBuffer::default();
    for text in ["first", "second", "third"] {
        buffer.push(ConsoleLevel::Info, ConsoleLineSource::System, text);
    }

    let content =
        history_content(&state, &buffer, &PersistenceSettings { max_saved_lines: 2, ..PersistenceSettings::default() });
    let (restored, restored_buffer) = load(&content);

    assert_eq!(restored.command_history(), ["one", "two"]);
    assert_eq!(texts(&restored_buffer), ["second", "third"]);
}

#[test]
fn recall_only_omits_transcript_rows() {
    let state = state_with_history(&["status"]);
    let mut buffer = ConsoleBuffer::default();
    buffer.push(ConsoleLevel::Info, ConsoleLineSource::System, "ready");
    let settings = PersistenceSettings { recall_only: true, ..PersistenceSettings::default() };

    let (restored, restored_buffer) = load(&history_content(&state, &buffer, &settings));

    assert_eq!(restored.command_history(), ["status"]);
    assert!(restored_buffer.lines().is_empty());
}

#[test]
fn saved_rows_respect_the_character_length_limit() {
    let state = ConsoleState::default();
    let mut buffer = ConsoleBuffer::default();
    buffer.push(ConsoleLevel::Info, ConsoleLineSource::System, "héllo");
    let settings = PersistenceSettings { max_line_length: Some(2), ..PersistenceSettings::default() };

    let (_, restored_buffer) = load(&history_content(&state, &buffer, &settings));

    assert_eq!(restored_buffer.lines()[0].text, "hé");
}

#[test]
fn restored_visual_history_respects_both_limits() {
    let mut saved = ConsoleBuffer::default();
    for command in ["one", "two", "three", "four"] {
        saved.push(
            ConsoleLevel::Info,
            ConsoleLineSource::CommandEcho { name: command.into() },
            &format!("> {command}"),
        );
    }
    let state = state_with_history(&["one", "two", "three", "four"]);
    let settings = ConsoleSettings { max_command_history: 3, max_history_lines: 2, ..ConsoleSettings::default() };

    let (state, buffer) = load_with(&save(&state, &saved), &settings);

    assert_eq!(state.command_history(), ["two", "three", "four"]);
    assert_eq!(texts(&buffer), ["> three", "> four"]);
}

#[test]
fn clearing_display_preserves_command_recall_on_restart() {
    let state = state_with_history(&["map forest", "set debug true"]);
    let mut buffer = ConsoleBuffer::default();
    buffer.push(ConsoleLevel::Info, ConsoleLineSource::System, "old output");
    buffer.clear();

    let (restored, restored_buffer) = load(&save(&state, &buffer));

    assert_eq!(restored.command_history(), ["map forest", "set debug true"]);
    assert!(restored_buffer.lines().is_empty());
}

#[test]
fn command_recall_is_not_limited_by_visual_buffer() {
    let state = state_with_history(&["one", "two", "three", "four"]);
    let mut buffer = ConsoleBuffer::new(2);
    for command in ["one", "two", "three", "four"] {
        buffer.push(
            ConsoleLevel::Info,
            ConsoleLineSource::CommandEcho { name: command.into() },
            &format!("> {command}"),
        );
    }
    let content = save(&state, &buffer);

    let (restored, restored_buffer) = load_with(
        &content,
        &ConsoleSettings { max_command_history: 4, max_history_lines: 2, ..ConsoleSettings::default() },
    );

    assert_eq!(restored.command_history(), ["one", "two", "three", "four"]);
    assert_eq!(texts(&restored_buffer), ["> three", "> four"]);
    assert_eq!(restored.cmd_history_line_ids, [None, None, Some(1), Some(2)]);
}

#[test]
fn output_starting_with_a_prompt_is_not_restored_as_recall() {
    let state = state_with_history(&["status"]);
    let mut buffer = ConsoleBuffer::default();
    buffer.push(ConsoleLevel::Info, ConsoleLineSource::CommandEcho { name: "status".into() }, "> status");
    buffer.push(ConsoleLevel::Info, ConsoleLineSource::Command { name: "status".into() }, "> ready");

    let (restored, restored_buffer) = load(&save(&state, &buffer));

    assert_eq!(restored.command_history(), ["status"]);
    assert_eq!(restored_buffer.lines()[1].text, "> ready");
    assert_eq!(restored_buffer.lines()[1].source, ConsoleLineSource::System);
}

#[test]
fn legacy_transcripts_are_discarded() {
    let (state, buffer) = load("> map forest\n< loaded\nset debug true\n");

    assert!(state.command_history().is_empty());
    assert!(buffer.lines().is_empty());
}

#[test]
fn malformed_transcripts_are_discarded_without_partial_restore() {
    let (state, buffer) = load("H\tstatus\nE\tstatus\nnot a record\n");

    assert!(state.command_history().is_empty());
    assert!(buffer.lines().is_empty());
}

#[test]
fn history_escapes_record_separators_without_losing_text() {
    let state = state_with_history(&["say \\ hello\tworld"]);
    let mut buffer = ConsoleBuffer::default();
    buffer.push(ConsoleLevel::Info, ConsoleLineSource::System, "a\tb\\c");

    let (restored, restored_buffer) = load(&save(&state, &buffer));

    assert_eq!(restored.command_history(), ["say \\ hello\tworld"]);
    assert_eq!(restored_buffer.lines()[0].text, "a\tb\\c");
}

#[test]
fn persistence_logs_are_excluded_from_console_capture() {
    assert!(is_persistence_log_target("chill_bevy_console::persistence"));
    assert!(is_persistence_log_target("chill_bevy_console::persistence::writer"));
    assert!(!is_persistence_log_target("game::persistence"));
    assert!(!is_persistence_log_target("chill_bevy_console::persistence_other"));
}

// ── further cases ──────────────────────────────────────────────────────────

#[test]
fn escaping_round_trips_every_separator() {
    let text = "a\\b\nc\rd\te";
    let encoded = encode_text(text);
    assert_eq!(encoded, "a\\\\b\\nc\\rd\\te");
    assert_eq!(decode_text(&encoded).as_deref(), Some(text));
}

#[test]
fn dangling_and_unknown_escapes_do_not_decode() {
    assert_eq!(decode_text("abc\\"), None);
    assert_eq!(decode_text("a\\qb"), None);
    assert_eq!(decode_text("plain").as_deref(), Some("plain"));
}

#[test]
fn truncation_counts_characters() {
    assert_eq!(truncate_text("héllo", Some(2)), "hé");
    assert_eq!(truncate_text("hi", Some(5)), "hi");
    assert_eq!(truncate_text("hello", None), "hello");
    assert_eq!(truncate_text("hello", Some(0)), "");
}

#[test]
fn rows_read_back_with_their_kind() {
    assert_eq!(read_row("H\tstatus"), Some((RecordKind::History, "status".to_string())));
    assert_eq!(read_row("C\techo a\\tb"), Some((RecordKind::Echo, "echo a\tb".to_string())));
    assert_eq!(read_row("E\tboom"), Some((RecordKind::Output(ConsoleLevel::Error), "boom".to_string())));
    assert_eq!(read_row("X\tboom"), None);
    assert_eq!(read_row("no tab"), None);
    assert_eq!(read_row("H\ttwo\ttabs"), None);
}

#[test]
fn windows_line_endings_read_back() {
    let (state, _) = load("H\tstatus\r\nH\thelp\r\n");
    assert_eq!(state.command_history(), ["status", "help"]);
}

#[test]
fn an_empty_transcript_restores_empty_recall() {
    let (state, buffer) = load("");
    assert!(state.command_history().is_empty());
    assert!(buffer.lines().is_empty());
}

#[test]
fn log_text_appends_fields() {
    assert_eq!(log_text("loaded", &[]), "loaded");
    assert_eq!(log_text("loaded", &["count=3".to_string()]), "loaded count=3");
}
