use chill_bevy_console::aliases::ConsoleAliases;
use chill_bevy_console::buffer::{ConsoleBuffer, ConsoleLevel, ConsoleLineSource, ConsoleResult};
use chill_bevy_console::commands::{alias_cmd, bind_cmd, builtin_spec, clear_cmd, enabled_builtins, help_cmd};
use chill_bevy_console::config::{BuiltinCommand, BuiltinCommands};
use chill_bevy_console::execution::{begin_execution, finish_execution, ExecutionStep};
use chill_bevy_console::input::{ConsoleKeyPress, InputSettings, LogicalKey};
use chill_bevy_console::keys::{
    parse_key_binding, parse_keycode, queue_bound_commands, ConsoleBinds, ConsoleKey, ConsoleKeyBinding,
    ConsoleKeyModifiers, HeldModifiers,
};
use chill_bevy_console::model::{CommandOrigin, CommandSpec, ConsoleCommandExecuted, ConsoleCommandQueue, ConsoleRequest};
use chill_bevy_console::registry::ConsoleRegistry;
use chill_bevy_console::state::ConsoleState;
use chill_bevy_console::{Args, CompletionItem};

const CLEAR: u64 = 1;
const HELP: u64 = 2;
const ALIAS: u64 = 3;
const BIND: u64 = 4;
const ECHO: u64 = 10;
const STATUS: u64 = 11;

fn builtin_handle(command: BuiltinCommand) -> u64 {
    match command {
        BuiltinCommand::Clear => CLEAR,
        BuiltinCommand::Help => HELP,
        BuiltinCommand::Alias => ALIAS,
        BuiltinCommand::Bind => BIND,
        BuiltinCommand::State => 5,
        BuiltinCommand::Res => 6,
    }
}

/// The console's resources and a dispatcher for the commands the tests register.
struct Console {
    registry: ConsoleRegistry,
    aliases: ConsoleAliases,
    binds: ConsoleBinds,
    state: ConsoleState,
    buffer: ConsoleBuffer,
    queue: ConsoleCommandQueue,
    executed: Vec<ConsoleCommandExecuted>,
    persistent_history: bool,
}

impl Console {
    fn new(builtins: &[BuiltinCommand]) -> Self {
        let mut registry = ConsoleRegistry::new();
        for command in enabled_builtins(&BuiltinCommands::from_commands(builtins)) {
            registry.register(builtin_spec(command), builtin_handle(command), None).unwrap();
        }
        registry.register(CommandSpec::new("echo", "echo <text>"), ECHO, None).unwrap();
        registry.register(CommandSpec::new("status", "status"), STATUS, None).unwrap();
        Console {
            registry,
            aliases: ConsoleAliases::new(),
            binds: ConsoleBinds::new(),
            state: ConsoleState::default(),
            buffer: ConsoleBuffer::default(),
            queue: ConsoleCommandQueue::new(),
            executed: Vec::new(),
            persistent_history: true,
        }
    }

    fn run(&mut self, executor: u64, args: &Args) -> ConsoleResult {
        match executor {
            CLEAR => clear_cmd(args, &mut self.buffer, &mut self.state, self.persistent_history),
            HELP => help_cmd(args, &self.registry),
            ALIAS => alias_cmd(args, &self.registry, &mut self.aliases),
            BIND => bind_cmd(args, &mut self.binds),
            ECHO => ConsoleResult::from(args.join("|")),
            STATUS => ConsoleResult::info("all good").line(ConsoleLevel::Warn, "watch out"),
            _ => ConsoleResult::default(),
        }
    }

    fn execute_pending(&mut self) {
        let step = begin_execution(
            &mut self.queue,
            &mut self.state,
            &mut self.buffer,
            &self.registry,
            &self.aliases,
        );
        match step {
            ExecutionStep::Run { executor, args, command, input, origin } => {
                let result = self.run(executor, &args);
                let executed = finish_execution(&mut self.buffer, result.lines, command, input, origin);
                self.executed.push(executed);
            }
            ExecutionStep::Finished(executed) => self.executed.push(executed),
            ExecutionStep::Idle | ExecutionStep::Expanded => {}
        }
    }

    fn submit(&mut self, input: &str) {
        self.queue.push(ConsoleRequest::new(input));
        self.execute_pending();
    }

    fn last_text(&self) -> String {
        self.buffer.last_line().unwrap().text.clone()
    }

    /// The lines written after the echo of the newest command.
    fn output_since_echo(&self) -> String {
        let lines = self.buffer.lines();
        let echo = lines
            .iter()
            .rposition(|line| matches!(line.source, ConsoleLineSource::CommandEcho { .. }))
            .unwrap();
        lines.iter().skip(echo + 1).map(|line| line.text.as_str()).collect::<Vec<_>>().join("\n")
    }
}

fn key(name: &str) -> ConsoleKey {
    parse_keycode(name).unwrap()
}

fn press(logical_key: LogicalKey) -> ConsoleKeyPress {
    ConsoleKeyPress {
        logical_key,
        is_toggle_key: false,
        is_backspace_key: false,
        control: false,
        meta: false,
        shift: false,
        composing: false,
    }
}

fn settings() -> InputSettings {
    InputSettings { max_command_history: 100, close_on_empty_submit: false, clear_enabled: true }
}

fn no_modifiers() -> HeldModifiers {
    HeldModifiers { control: false, super_key: false, shift: false, alt: false }
}

// ── built-in commands ──────────────────────────────────────────────────────

#[test]
fn help_omits_duplicated_usage_but_shows_an_explicit_summary() {
    let mut registry = ConsoleRegistry::new();
    registry.register(CommandSpec::new("echo", "echo <text>"), 1, None).unwrap();
    registry
        .register(
            CommandSpec::new("described-echo", "described-echo <text>").with_summary("Echo text to the console"),
            2,
            None,
        )
        .unwrap();

    assert_eq!(
        help_cmd(&Args::from(vec!["echo".to_string()]), &registry).lines,
        vec![(ConsoleLevel::Info, "echo <text>".to_string())]
    );
    assert_eq!(
        help_cmd(&Args::from(vec!["described-echo".to_string()]), &registry).lines,
        vec![(ConsoleLevel::Info, "described-echo <text>\nEcho text to the console".to_string())]
    );
}

#[test]
fn runtime_aliases_cannot_shadow_registered_commands() {
    let mut console = Console::new(&[BuiltinCommand::Alias, BuiltinCommand::Clear]);
    console.submit("alias set clear echo ignored");

    assert!(console.aliases.get("clear").is_none());
    let lines = console.buffer.lines();
    assert_eq!(lines[1].text, "Cannot create alias `clear`: it is already a registered command");
    assert_eq!(lines[1].level, ConsoleLevel::Error);
    assert!(!console.executed[0].succeeded);
}

#[test]
fn alias_operations_manage_runtime_aliases() {
    let mut console = Console::new(&[BuiltinCommand::Alias]);
    console.submit("alias set quicksave save slot_1");
    assert_eq!(console.aliases.get("quicksave"), Some("save slot_1"));

    console.submit("alias get quicksave");
    assert_eq!(console.last_text(), "quicksave = save slot_1");

    console.submit("alias remove quicksave");
    assert!(console.aliases.get("quicksave").is_none());
}

#[test]
fn builtins_can_be_selected_individually() {
    let console = Console::new(&[BuiltinCommand::Help]);
    assert!(console.registry.get("help").is_some());
    assert!(console.registry.get("clear").is_none());
    assert!(console.registry.get("get").is_none());
}

#[test]
fn default_builtins_are_help_and_clear() {
    let commands = BuiltinCommands::default();

    assert!(commands.contains(BuiltinCommand::Help));
    assert!(commands.contains(BuiltinCommand::Clear));
    assert!(!commands.contains(BuiltinCommand::Alias));
    assert!(!commands.contains(BuiltinCommand::Bind));
}

#[test]
fn builtins_can_be_created_from_an_iterator() {
    let chosen: Vec<BuiltinCommand> = [BuiltinCommand::Help, BuiltinCommand::Alias]
        .into_iter()
        .filter(|command| *command != BuiltinCommand::Help)
        .collect();
    let commands = BuiltinCommands::from_commands(&chosen);

    assert!(!commands.contains(BuiltinCommand::Help));
    assert!(commands.contains(BuiltinCommand::Alias));
}

#[test]
fn clear_history_flag_clears_command_recall() {
    let mut buffer = ConsoleBuffer::default();
    let mut state = ConsoleState {
        cmd_history: vec!["map forest".into()],
        cmd_history_line_ids: vec![None],
        cmd_history_index: Some(0),
        cmd_history_draft: "draft".into(),
        command_history_revision: 7,
        ..ConsoleState::default()
    };

    clear_cmd(&Args::from(vec!["--history".to_string()]), &mut buffer, &mut state, true);

    assert!(state.cmd_history.is_empty());
    assert_eq!(state.cmd_history_index, None);
    assert!(state.cmd_history_draft.is_empty());
    assert_eq!(state.command_history_revision, 8);
}

#[test]
fn bind_operations_manage_runtime_key_bindings() {
    let mut console = Console::new(&[BuiltinCommand::Bind]);
    console.submit("bind set f1 echo hello");
    assert_eq!(console.binds.get(key("F1")), Some("echo hello"));

    console.submit("bind set ctrl+w echo save");
    assert_eq!(
        console.binds.get_binding(ConsoleKeyBinding {
            key: key("KeyW"),
            modifiers: ConsoleKeyModifiers { ctrl: true, ..ConsoleKeyModifiers::default() },
        }),
        Some("echo save")
    );

    console.submit("bind get ctrl+w");
    assert_eq!(console.last_text(), "ctrl+KeyW = echo save");

    console.submit("bind remove F1");
    assert!(console.binds.get(key("F1")).is_none());
}

#[test]
fn a_removed_binding_reads_back_as_unbound() {
    let mut console = Console::new(&[BuiltinCommand::Bind]);
    console.submit("bind set shift+w echo walk");
    console.submit("bind remove SHIFT+KeyW");
    assert_eq!(console.last_text(), "Removed binding: shift+KeyW");
    console.submit("bind get shift+w");
    assert_eq!(console.last_text(), "No binding for shift+KeyW");
}

#[test]
fn binding_parser_supports_combined_modifiers_and_rejects_invalid_chords() {
    assert_eq!(
        parse_key_binding("meta+shift+w"),
        Some(ConsoleKeyBinding {
            key: key("KeyW"),
            modifiers: ConsoleKeyModifiers { meta: true, shift: true, ..ConsoleKeyModifiers::default() },
        })
    );
    assert_eq!(parse_key_binding("cmd+w"), parse_key_binding("meta+w"));
    assert!(parse_key_binding("ctrl+shift").is_none());
    assert!(parse_key_binding("meta+meta+w").is_none());
    assert!(parse_key_binding("ctrl+ctrl+w").is_none());
    assert!(parse_key_binding("w+e").is_none());
    assert!(parse_key_binding("ctrl++w").is_none());
}

// ── execution ──────────────────────────────────────────────────────────────

#[test]
fn queued_commands_parse_quotes_and_write_structured_output() {
    let mut console = Console::new(&[BuiltinCommand::Help, BuiltinCommand::Clear]);
    console.submit(r#"echo "hello world" two"#);

    let lines = console.buffer.lines();
    assert_eq!(lines[0].text, r#"> echo "hello world" two"#);
    assert_eq!(lines[1].text, "hello world|two");

    console.submit("status");
    let lines = console.buffer.lines();
    assert_eq!(lines[3].level, ConsoleLevel::Info);
    assert_eq!(lines[4].level, ConsoleLevel::Warn);
}

#[test]
fn unknown_commands_echo_the_submitted_input_before_the_error() {
    let mut console = Console::new(&[BuiltinCommand::Help, BuiltinCommand::Clear]);
    console.state.record_command("missing arg".into(), 10);
    console.submit("missing arg");

    let lines = console.buffer.lines();
    assert_eq!(lines[0].text, "> missing arg");
    assert!(matches!(
        lines[0].source,
        ConsoleLineSource::CommandEcho { ref name } if name == "missing"
    ));
    assert_eq!(lines[1].text, "Unknown command: missing");
    assert_eq!(console.state.cmd_history_line_ids, [Some(lines[0].id)]);
}

#[test]
fn executing_a_submitted_command_links_its_recall_entry_to_the_echo_row() {
    let mut console = Console::new(&[BuiltinCommand::Help, BuiltinCommand::Clear]);
    console.state.record_command("echo linked".into(), 10);
    console.submit("echo linked");

    let echo_id = console.buffer.lines()[0].id;
    assert_eq!(console.state.cmd_history_line_ids, [Some(echo_id)]);
}

#[test]
fn earlier_queued_command_does_not_consume_a_pending_history_link() {
    let mut console = Console::new(&[BuiltinCommand::Help, BuiltinCommand::Clear]);
    console.queue.push(ConsoleRequest::new("echo earlier"));
    console.state.record_command("echo recalled".into(), 10);
    console
        .queue
        .push(ConsoleRequest { input: "echo recalled".into(), origin: CommandOrigin::LocalUi });

    console.execute_pending();
    assert_eq!(console.state.pending_history_index, Some(0));

    console.execute_pending();
    let echo_id = console.buffer.lines()[2].id;
    assert_eq!(console.state.cmd_history_line_ids, [Some(echo_id)]);
}

#[test]
fn runtime_aliases_expand_before_command_execution() {
    let mut console = Console::new(&[BuiltinCommand::Help, BuiltinCommand::Clear]);
    console.aliases.set("say_hi", "echo hello");
    console.queue.push(ConsoleRequest::new("say_hi world"));
    console.execute_pending();
    console.execute_pending();

    let lines = console.buffer.lines();
    assert_eq!(lines[0].text, "> echo hello world");
    assert_eq!(lines[1].text, "hello|world");
}

#[test]
fn alias_expansion_limit_emits_a_failed_execution_message() {
    let mut console = Console::new(&[BuiltinCommand::Help, BuiltinCommand::Clear]);
    console.aliases.set("loop", "loop");
    console.queue.push(ConsoleRequest::new("loop"));

    for _ in 0..=16 {
        console.execute_pending();
    }

    let message = &console.executed[0];
    assert_eq!(message.input, "loop");
    assert_eq!(message.command.as_deref(), Some("loop"));
    assert!(!message.succeeded);
}

#[test]
fn recalled_runtime_alias_links_to_its_expanded_echo_row() {
    let mut console = Console::new(&[BuiltinCommand::Help, BuiltinCommand::Clear]);
    console.aliases.set("say_hi", "echo hello");
    console.state.record_command("say_hi world".into(), 10);
    console.queue.push(ConsoleRequest::new("say_hi world"));

    console.execute_pending();
    console.execute_pending();

    let echo_id = console.buffer.lines()[0].id;
    assert_eq!(console.state.cmd_history_line_ids, [Some(echo_id)]);
}

#[test]
fn alias_and_bind_set_preserve_quoted_command_arguments() {
    let mut console = Console::new(&BuiltinCommand::all());

    console.submit(r#"alias set greeting echo "hello world""#);
    assert_eq!(console.aliases.get("greeting"), Some(r#"echo "hello world""#));

    console.queue.push(ConsoleRequest::new("greeting"));
    console.execute_pending();
    console.execute_pending();
    assert_eq!(console.last_text(), "hello world");

    console.submit(r#"bind set F1 echo "hello world""#);
    assert_eq!(console.binds.get(key("F1")), Some(r#"echo "hello world""#));
}

#[test]
fn parse_errors_are_reported_without_running_a_command() {
    let mut console = Console::new(&[BuiltinCommand::Help]);
    console.submit("echo \"open");
    assert_eq!(console.buffer.lines().len(), 1);
    assert_eq!(console.buffer.lines()[0].level, ConsoleLevel::Error);
    assert!(console.last_text().starts_with("Parse error: "));
    assert_eq!(console.executed[0].command, None);
    assert!(!console.executed[0].succeeded);
}

#[test]
fn successful_commands_report_success() {
    let mut console = Console::new(&[BuiltinCommand::Help]);
    console.submit("status");
    assert!(console.executed[0].succeeded);
    assert_eq!(console.executed[0].command.as_deref(), Some("status"));
    assert_eq!(console.executed[0].origin, CommandOrigin::Application);
}

#[test]
fn help_lists_visible_usages_in_name_order() {
    let mut console = Console::new(&[BuiltinCommand::Help, BuiltinCommand::Clear]);
    console.registry.register(CommandSpec::new("secret", "secret").hidden(), 99, None).unwrap();
    console.submit("help");
    assert_eq!(
        console.output_since_echo(),
        "clear - clear the console output\necho <text>\nhelp [command] - show available commands or command help\nstatus"
    );
    console.submit("help nothing");
    assert_eq!(console.last_text(), "Unknown command: nothing");
}

#[test]
fn clear_empties_the_output_but_keeps_recall_without_the_flag() {
    let mut console = Console::new(&[BuiltinCommand::Clear]);
    console.state.record_command("echo kept".into(), 10);
    console.submit("echo kept");
    console.submit("clear");
    assert!(console.buffer.lines().is_empty());
    assert_eq!(console.state.cmd_history, vec!["echo kept".to_string()]);
}

#[test]
fn alias_list_and_errors() {
    let mut console = Console::new(&[BuiltinCommand::Alias]);
    console.submit("alias list");
    assert_eq!(console.last_text(), "No runtime aliases defined");
    console.submit("alias set b echo b");
    console.submit("alias set a echo a");
    console.submit("alias list");
    assert_eq!(console.output_since_echo(), "a = echo a\nb = echo b");
    console.submit("alias get missing");
    assert_eq!(console.last_text(), "Unknown alias: missing");
    console.submit("alias");
    assert_eq!(console.last_text(), "Usage: alias <list|get|set|remove> [name] [command...]");
}

#[test]
fn bind_rejects_unknown_keys() {
    let mut console = Console::new(&[BuiltinCommand::Bind]);
    console.submit("bind set nokey echo x");
    assert_eq!(console.buffer.last_line().unwrap().level, ConsoleLevel::Error);
    assert!(console.binds.iter().is_empty());
}

// ── key presses ────────────────────────────────────────────────────────────

#[test]
fn up_from_first_suggestion_browses_history_until_draft_is_restored() {
    let mut state = ConsoleState {
        open: true,
        completion_items: vec![
            CompletionItem::from("alpha").with_replace(0..0),
            CompletionItem::from("beta").with_replace(0..0),
        ],
        cmd_history: vec!["echo older".into(), "echo newer".into()],
        cmd_history_line_ids: vec![None, None],
        ..ConsoleState::default()
    };
    let mut queue = ConsoleCommandQueue::new();

    for (logical_key, expected) in [
        (LogicalKey::ArrowUp, "echo newer"),
        (LogicalKey::ArrowUp, "echo older"),
        (LogicalKey::ArrowDown, "echo newer"),
        (LogicalKey::ArrowDown, ""),
    ] {
        state.handle_key(&press(logical_key), &settings(), &mut queue);
        assert_eq!(state.input, expected);
    }

    assert_eq!(state.cmd_history_index, None);
}

#[test]
fn history_navigation_skips_duplicate_entries_in_both_directions() {
    let mut state = ConsoleState {
        open: true,
        cmd_history: vec!["status".into(), "help".into(), "help".into()],
        cmd_history_line_ids: vec![None, None, None],
        ..ConsoleState::default()
    };
    let mut queue = ConsoleCommandQueue::new();

    for (logical_key, expected) in [
        (LogicalKey::ArrowUp, "help"),
        (LogicalKey::ArrowUp, "status"),
        (LogicalKey::ArrowDown, "help"),
        (LogicalKey::ArrowDown, ""),
    ] {
        state.handle_key(&press(logical_key), &settings(), &mut queue);
        assert_eq!(state.input, expected);
    }
}

#[test]
fn completion_navigation_does_not_move_the_text_cursor() {
    let mut state = ConsoleState {
        open: true,
        input: "ec".into(),
        completion_items: vec![
            CompletionItem::from("echo").with_replace(0..2),
            CompletionItem::from("exit").with_replace(0..2),
        ],
        match_index: 1,
        ..ConsoleState::default()
    };
    let mut queue = ConsoleCommandQueue::new();

    let outcome = state.handle_key(&press(LogicalKey::ArrowUp), &settings(), &mut queue);

    assert_eq!(state.match_index, 0);
    assert!(outcome.discard_vertical_moves);
    assert!(outcome.set_text.is_none());
}

#[test]
fn accepting_completion_exits_history_browsing() {
    let mut state = ConsoleState {
        open: true,
        input: "ec".into(),
        completion_items: vec![CompletionItem::from("echo").with_replace(0..2)],
        cmd_history: vec!["ec".into()],
        cmd_history_line_ids: vec![None],
        cmd_history_index: Some(0),
        cmd_history_draft: "draft".into(),
        ..ConsoleState::default()
    };
    let mut queue = ConsoleCommandQueue::new();

    state.handle_key(&press(LogicalKey::Tab), &settings(), &mut queue);

    assert_eq!(state.input, "echo ");
    assert_eq!(state.cmd_history_index, None);
    assert!(state.cmd_history_draft.is_empty());
}

#[test]
fn enter_submits_the_editable_text_value() {
    let mut state = ConsoleState { open: true, input: "echo hello".into(), ..ConsoleState::default() };
    let mut queue = ConsoleCommandQueue::new();

    let outcome = state.handle_key(&press(LogicalKey::Enter), &settings(), &mut queue);

    let request = queue.pop_front().unwrap();
    assert_eq!(request.request.input, "echo hello");
    assert!(state.input.is_empty());
    assert!(outcome.reset_scroll);
}

#[test]
fn empty_input_closes_the_console_when_close_is_enabled() {
    let mut state = ConsoleState { open: true, ..ConsoleState::default() };
    let mut queue = ConsoleCommandQueue::new();
    let settings = InputSettings { close_on_empty_submit: true, ..settings() };

    state.handle_key(&press(LogicalKey::Enter), &settings, &mut queue);

    assert!(!state.open);
    assert!(queue.is_empty());
}

#[test]
fn ios_return_character_submits_the_editable_text_value() {
    let mut state = ConsoleState { open: true, input: "echo hello".into(), ..ConsoleState::default() };
    let mut queue = ConsoleCommandQueue::new();

    state.handle_key(&press(LogicalKey::Character("\n".into())), &settings(), &mut queue);

    let request = queue.pop_front().unwrap();
    assert_eq!(request.request.input, "echo hello");
    assert!(state.input.is_empty());
}

#[test]
fn meta_backspace_clears_the_console_input() {
    let mut state = ConsoleState { open: true, input: "echo hello".into(), ..ConsoleState::default() };
    let mut queue = ConsoleCommandQueue::new();
    let key = ConsoleKeyPress { is_backspace_key: true, meta: true, ..press(LogicalKey::Other) };

    let outcome = state.handle_key(&key, &settings(), &mut queue);

    assert!(state.input.is_empty());
    assert_eq!(outcome.set_text, Some((String::new(), 0)));
}

#[test]
fn control_l_queues_clear_only_when_clear_is_registered() {
    let mut state = ConsoleState { open: true, input: "abc".into(), ..ConsoleState::default() };
    let mut queue = ConsoleCommandQueue::new();
    let key = ConsoleKeyPress { control: true, ..press(LogicalKey::Character("l".into())) };

    state.handle_key(&key, &InputSettings { clear_enabled: false, ..settings() }, &mut queue);
    assert!(queue.is_empty());
    assert_eq!(state.input, "abc");

    state.handle_key(&key, &settings(), &mut queue);
    assert_eq!(queue.pop_front().unwrap().request.input, "clear");
    assert!(state.input.is_empty());
}

#[test]
fn the_toggle_key_and_composition_are_ignored() {
    let mut state = ConsoleState { open: true, input: "abc".into(), ..ConsoleState::default() };
    let mut queue = ConsoleCommandQueue::new();
    let toggle = ConsoleKeyPress { is_toggle_key: true, ..press(LogicalKey::Enter) };
    let composing = ConsoleKeyPress { composing: true, ..press(LogicalKey::Enter) };

    state.handle_key(&toggle, &settings(), &mut queue);
    state.handle_key(&composing, &settings(), &mut queue);
    assert!(queue.is_empty());
    assert_eq!(state.input, "abc");
}

// ── key bindings ───────────────────────────────────────────────────────────

#[test]
fn key_bindings_queue_commands_only_while_the_console_is_closed() {
    let mut binds = ConsoleBinds::new();
    let mut queue = ConsoleCommandQueue::new();
    binds.set(key("F1"), "echo hello");

    queue_bound_commands(false, &binds, &[key("F1")], no_modifiers(), false, &mut queue);
    assert_eq!(queue.len(), 1);

    queue_bound_commands(true, &binds, &[key("F1")], no_modifiers(), false, &mut queue);
    assert_eq!(queue.len(), 1);
}

#[test]
fn key_bindings_require_an_exact_modifier_chord() {
    let mut binds = ConsoleBinds::new();
    let mut queue = ConsoleCommandQueue::new();
    binds.set_binding(
        ConsoleKeyBinding {
            key: key("KeyW"),
            modifiers: ConsoleKeyModifiers { shift: true, ..ConsoleKeyModifiers::default() },
        },
        "echo sprint",
    );
    let held = HeldModifiers { shift: true, ..no_modifiers() };

    queue_bound_commands(false, &binds, &[key("KeyW")], held, false, &mut queue);
    assert_eq!(queue.len(), 1);
}

#[test]
fn key_bindings_support_the_platform_meta_modifier() {
    for macos in [false, true] {
        let mut binds = ConsoleBinds::new();
        let mut queue = ConsoleCommandQueue::new();
        binds.set_binding(
            ConsoleKeyBinding {
                key: key("KeyW"),
                modifiers: ConsoleKeyModifiers { meta: true, ..ConsoleKeyModifiers::default() },
            },
            "echo save",
        );
        let held = if macos {
            HeldModifiers { super_key: true, ..no_modifiers() }
        } else {
            HeldModifiers { control: true, ..no_modifiers() }
        };

        queue_bound_commands(false, &binds, &[key("KeyW")], held, macos, &mut queue);
        assert_eq!(queue.len(), 1);
    }
}

#[test]
fn key_bindings_do_not_match_the_wrong_modifier_chord() {
    let mut binds = ConsoleBinds::new();
    let mut queue = ConsoleCommandQueue::new();
    binds.set_binding(
        ConsoleKeyBinding {
            key: key("KeyW"),
            modifiers: ConsoleKeyModifiers { shift: true, ..ConsoleKeyModifiers::default() },
        },
        "echo sprint",
    );
    let held = HeldModifiers { control: true, ..no_modifiers() };

    queue_bound_commands(false, &binds, &[key("KeyW")], held, false, &mut queue);
    assert!(queue.is_empty());
}

#[test]
fn key_bindings_do_not_fire_while_super_is_held() {
    let mut binds = ConsoleBinds::new();
    let mut queue = ConsoleCommandQueue::new();
    binds.set(key("KeyW"), "echo walk");
    let held = HeldModifiers { super_key: true, ..no_modifiers() };

    queue_bound_commands(false, &binds, &[key("KeyW")], held, false, &mut queue);
    assert!(queue.is_empty());
}

#[test]
fn key_names_round_trip_through_their_index() {
    let f1 = key("F1");
    assert_eq!(f1.name(), "F1");
    assert_eq!(ConsoleKey::from_index(f1.index()), Some(f1));
    assert_eq!(key("w"), key("KeyW"));
    assert_eq!(key("7"), key("Digit7"));
    assert!(parse_keycode("NotAKey").is_none());
    assert_eq!(ConsoleKeyBinding::new(key("F1")).label(), "F1");
}
