use chill_bevy_console::aliases::ConsoleAliases;
use chill_bevy_console::commands::{builtin_spec, complete_alias};
use chill_bevy_console::completion::{
    match_rank, plan_completions, rank_completion_items, runtime_command_completions, static_completion_items,
    CompletionPlan,
};
use chill_bevy_console::config::BuiltinCommand;
use chill_bevy_console::model::{ArgumentKind, ArgumentSpec, CommandSpec, CompletionRequest};
use chill_bevy_console::registry::ConsoleRegistry;
use chill_bevy_console::state::ConsoleState;
use chill_bevy_console::{CompletionItem, ParsedInput};

const LEVELS: u64 = 100;
const INDEXED: u64 = 101;
const EMPTY: u64 = 102;
const ALIAS_COMPLETER: u64 = 103;

/// Runs the completers the tests register.
fn run_completer(
    completer: u64,
    request: &CompletionRequest,
    registry: &ConsoleRegistry,
    aliases: &ConsoleAliases,
) -> Vec<CompletionItem> {
    match completer {
        LEVELS => match request.argument_index() {
            0 => ["forest", "fortress"].into_iter().map(|level| CompletionItem::from(level.to_string())).collect(),
            _ => Vec::new(),
        },
        INDEXED => {
            let previous = request.argument(0).unwrap_or("-");
            vec![CompletionItem::new(
                &format!("{}:{}:{previous}", request.command(), request.argument_index()),
                "",
            )]
        }
        ALIAS_COMPLETER => complete_alias(request, aliases, registry),
        _ => Vec::new(),
    }
}

/// One completion refresh, as the console does it after the input changed.
fn refresh(state: &mut ConsoleState, registry: &ConsoleRegistry, aliases: &ConsoleAliases, max_suggestions: usize) {
    let (input, cursor) = state.begin_completion_refresh(None);
    let parsed = ParsedInput::parse_at(&input, cursor);
    let items = match plan_completions(registry, aliases, &parsed) {
        CompletionPlan::Ready(items) => items,
        CompletionPlan::RunCompleter { completer, request } => rank_completion_items(
            run_completer(completer, &request, registry, aliases),
            parsed.active_fragment(),
            parsed.replacement_range(),
        ),
    };
    state.install_completions(items, max_suggestions);
}

fn labels(state: &ConsoleState) -> Vec<&str> {
    state.completion_items.iter().map(|item| item.label.as_str()).collect()
}

fn set_input(state: &mut ConsoleState, input: &str) {
    state.input = input.into();
    state.mark_input_changed();
}

#[test]
fn prefix_beats_substring() {
    assert!(match_rank("map", "ma") < match_rank("r_map", "ma"));
}

#[test]
fn completes_static_and_dynamic_arguments_through_bevy_systems() {
    let aliases = ConsoleAliases::new();
    let mut registry = ConsoleRegistry::new();
    registry
        .register(
            CommandSpec::new("quality", "quality <level>")
                .with_args(vec![ArgumentSpec::new("level").choices(&["low", "medium", "high"])]),
            1,
            None,
        )
        .unwrap();
    registry
        .register(CommandSpec::new("map", "map <name>").with_args(vec![ArgumentSpec::new("name")]), 2, Some(LEVELS))
        .unwrap();
    registry
        .register(
            CommandSpec::new("teleport", "teleport <target> <mode>").with_args(vec![
                ArgumentSpec::new("target"),
                ArgumentSpec::new("mode").choices(&["walk", "snap"]),
            ]),
            3,
            None,
        )
        .unwrap();
    let mut state = ConsoleState::default();

    set_input(&mut state, "quality m");
    refresh(&mut state, &registry, &aliases, 5);
    assert_eq!(state.completion_items[0].label, "medium");

    set_input(&mut state, "map fo");
    refresh(&mut state, &registry, &aliases, 5);
    assert_eq!(labels(&state), ["forest", "fortress"]);
    assert_eq!(state.completion_items[0].replace, 4..6);

    set_input(&mut state, "teleport player w");
    refresh(&mut state, &registry, &aliases, 5);
    assert_eq!(state.completion_items[0].label, "walk");
}

#[test]
fn dynamic_completer_overrides_static_choices() {
    let aliases = ConsoleAliases::new();
    let mut registry = ConsoleRegistry::new();
    registry
        .register(
            CommandSpec::new("map", "map <name>").with_args(vec![ArgumentSpec::new("name").choices(&["static_map"])]),
            1,
            Some(LEVELS),
        )
        .unwrap();
    let mut state = ConsoleState::default();

    set_input(&mut state, "map ");
    refresh(&mut state, &registry, &aliases, 5);

    assert_eq!(labels(&state), ["forest", "fortress"]);
}

#[test]
fn command_completer_receives_the_active_index_and_preceding_arguments() {
    let aliases = ConsoleAliases::new();
    let mut registry = ConsoleRegistry::new();
    registry
        .register(
            CommandSpec::new("route", "route <from> <via> <to>").with_args(vec![
                ArgumentSpec::new("from"),
                ArgumentSpec::new("via"),
                ArgumentSpec::new("to"),
            ]),
            1,
            Some(INDEXED),
        )
        .unwrap();
    let mut state = ConsoleState::default();

    for (input, expected) in
        [("route ", "route:0:-"), ("route forest ", "route:1:forest"), ("route forest river ", "route:2:forest")]
    {
        set_input(&mut state, input);
        refresh(&mut state, &registry, &aliases, 5);
        assert_eq!(state.completion_items[0].label, expected);
    }
}

#[test]
fn empty_command_completer_suppresses_static_choices() {
    let aliases = ConsoleAliases::new();
    let mut registry = ConsoleRegistry::new();
    registry
        .register(
            CommandSpec::new("quality", "quality <level>")
                .with_args(vec![ArgumentSpec::new("level").choices(&["low", "high"])]),
            1,
            Some(EMPTY),
        )
        .unwrap();
    let mut state = ConsoleState::default();

    set_input(&mut state, "quality ");
    refresh(&mut state, &registry, &aliases, 5);

    assert!(state.completion_items.is_empty());
}

#[test]
fn accepted_completion_refreshes_for_the_next_argument_before_editor_updates() {
    let aliases = ConsoleAliases::new();
    let mut registry = ConsoleRegistry::new();
    registry
        .register(
            CommandSpec::new("teleport", "teleport <target> <mode>").with_args(vec![
                ArgumentSpec::new("target").choices(&["player"]),
                ArgumentSpec::new("mode").choices(&["walk", "snap"]),
            ]),
            1,
            None,
        )
        .unwrap();
    let mut state = ConsoleState::default();
    state.input = "teleport pla".into();
    state.completion_items = vec![CompletionItem::from("player").with_replace(9..12)];
    assert_eq!(state.apply_selected_completion(), Some(16));

    // The text widget still reports its old cursor.
    let (input, cursor) = state.begin_completion_refresh(Some(12));
    let parsed = ParsedInput::parse_at(&input, cursor);
    let items = match plan_completions(&registry, &aliases, &parsed) {
        CompletionPlan::Ready(items) => items,
        CompletionPlan::RunCompleter { .. } => Vec::new(),
    };
    state.install_completions(items, 5);

    assert_eq!(state.input, "teleport player ");
    assert_eq!(labels(&state), ["snap", "walk"]);
}

#[test]
fn completion_hides_hidden_commands() {
    let aliases = ConsoleAliases::new();
    let mut registry = ConsoleRegistry::new();
    registry.register(CommandSpec::new("visible", "visible"), 1, None).unwrap();
    registry.register(CommandSpec::new("hidden", "hidden").hidden(), 2, None).unwrap();
    let mut state = ConsoleState::default();
    state.mark_input_changed();
    refresh(&mut state, &registry, &aliases, 5);
    assert_eq!(labels(&state), ["visible"]);
}

#[test]
fn retains_completions_beyond_the_first_suggestion_page() {
    let aliases = ConsoleAliases::new();
    let mut registry = ConsoleRegistry::new();
    for (handle, name) in ["alpha", "beta", "gamma"].into_iter().enumerate() {
        registry.register(CommandSpec::new(name, "usage"), handle as u64, None).unwrap();
    }
    let mut state = ConsoleState::default();
    state.mark_input_changed();

    refresh(&mut state, &registry, &aliases, 2);

    assert_eq!(state.completion_items[0].label, "alpha");
    assert_eq!(state.completion_items[1].label, "beta");
    assert_eq!(state.completion_items[2].label, "gamma");
    assert_eq!(state.completion_overflow, 1);
}

#[test]
fn zero_suggestion_limit_disables_completions() {
    let aliases = ConsoleAliases::new();
    let mut registry = ConsoleRegistry::new();
    registry.register(CommandSpec::new("alpha", "alpha"), 1, None).unwrap();
    let mut state = ConsoleState::default();
    state.mark_input_changed();

    refresh(&mut state, &registry, &aliases, 0);

    assert!(state.completion_items.is_empty());
    assert_eq!(state.completion_overflow, 1);
}

#[test]
fn alias_completes_registered_commands() {
    let aliases = ConsoleAliases::new();
    let mut registry = ConsoleRegistry::new();
    registry.register(builtin_spec(BuiltinCommand::Alias), 1, Some(ALIAS_COMPLETER)).unwrap();
    registry.register(CommandSpec::new("save", "save - save the game"), 2, None).unwrap();
    registry.register(CommandSpec::new("hidden", "hidden").hidden(), 3, None).unwrap();
    let mut state = ConsoleState::default();

    set_input(&mut state, "alias set quick sa");
    refresh(&mut state, &registry, &aliases, 5);

    assert_eq!(labels(&state), ["save"]);
}

// ── further cases ──────────────────────────────────────────────────────────

#[test]
fn match_rank_ignores_case_and_accepts_an_empty_fragment() {
    assert_eq!(match_rank("Teleport", "TEL"), Some(0));
    assert_eq!(match_rank("teleport", "PORT"), Some(1));
    assert_eq!(match_rank("teleport", "xyz"), None);
    assert_eq!(match_rank("anything", ""), Some(0));
}

#[test]
fn ranking_puts_prefixes_first_then_orders_by_label() {
    let items = vec![
        CompletionItem::from("r_map"),
        CompletionItem::from("mapb"),
        CompletionItem::from("mapa"),
        CompletionItem::from("other"),
    ];
    let ranked = rank_completion_items(items, "ma", 3..5);
    let names: Vec<&str> = ranked.iter().map(|item| item.label.as_str()).collect();
    assert_eq!(names, ["mapa", "mapb", "r_map"]);
    assert!(ranked.iter().all(|item| item.replace == (3..5)));
}

#[test]
fn command_candidates_list_commands_then_their_aliases_then_runtime_aliases() {
    let mut aliases = ConsoleAliases::new();
    aliases.set("qs", "save quick");
    let mut registry = ConsoleRegistry::new();
    registry
        .register(CommandSpec::new("save", "save").with_summary("Save the game").with_alias("write"), 1, None)
        .unwrap();
    let items = runtime_command_completions(&registry, &aliases);
    let pairs: Vec<(&str, &str)> = items.iter().map(|item| (item.label.as_str(), item.detail.as_str())).collect();
    assert_eq!(
        pairs,
        [("save", "Save the game"), ("write", "alias for save - Save the game"), ("qs", "runtime alias - save quick")]
    );
}

#[test]
fn boolean_arguments_offer_true_and_false_with_their_help() {
    let aliases = ConsoleAliases::new();
    let mut registry = ConsoleRegistry::new();
    registry
        .register(
            CommandSpec::new("vsync", "vsync <on>")
                .with_args(vec![ArgumentSpec::new("on").help("Whether to wait").kind(ArgumentKind::Boolean)]),
            1,
            None,
        )
        .unwrap();
    let mut state = ConsoleState::default();
    set_input(&mut state, "vsync ");
    refresh(&mut state, &registry, &aliases, 5);
    assert_eq!(labels(&state), ["false", "true"]);
    assert_eq!(state.completion_items[0].detail, "on - Whether to wait");
}

#[test]
fn static_items_keep_their_order() {
    let items = static_completion_items(&[("b", "second"), ("a", "first")]);
    assert_eq!(items[0].label, "b");
    assert_eq!(items[1].detail, "first");
    assert!(items.iter().all(|item| item.append_space));
}
