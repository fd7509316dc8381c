use chill_bevy_console::buffer::{ConsoleLevel, ConsoleResult};
use chill_bevy_console::parser::ParsedInput;
use chill_bevy_console::model::CompletionRequest;
use chill_bevy_console::states::{
    complete_state, plan_state_command, state_transition_reply, state_uninitialized, state_value_reply, ConsoleStates,
    StateEntry, StatePlan, StateRegistrationError, StateVariant,
};
use chill_bevy_console::Args;

fn variant(name: &str, unit: bool) -> StateVariant {
    StateVariant { name: name.to_string(), unit }
}

fn game_state(path: &str) -> StateEntry {
    StateEntry {
        short_name: "GameState".to_string(),
        type_path: path.to_string(),
        variants: vec![variant("Menu", true), variant("Playing", true), variant("Loading", false)],
    }
}

fn inspector_state() -> StateEntry {
    StateEntry {
        short_name: "InspectorState".to_string(),
        type_path: "game::InspectorState".to_string(),
        variants: vec![variant("Hidden", true), variant("Visible", true)],
    }
}

/// A state value the host would hold: the current variant and a queued one.
struct Machine {
    current: &'static str,
    next: Option<String>,
}

/// Runs one `state` command the way the host does: the library decides,
/// the host reads or queues the value, the library words the reply.
fn run(states: &ConsoleStates, machine: &mut Machine, input: &str) -> ConsoleResult {
    let parsed = ParsedInput::parse(input);
    let args = Args::from_parsed(&parsed);
    match plan_state_command(states, &args) {
        StatePlan::Reply(result) => result,
        StatePlan::Get(index) => state_value_reply(states, index, Ok(machine.current)),
        StatePlan::Transition(index, value) => {
            machine.next = Some(value.clone());
            state_transition_reply(states, index, Ok(&value))
        }
    }
}

fn states() -> ConsoleStates {
    let mut states = ConsoleStates::new();
    states.register(game_state("game::GameState")).unwrap();
    states
}

fn menu() -> Machine {
    Machine { current: "Menu", next: None }
}

fn level(result: &ConsoleResult) -> ConsoleLevel {
    result.lines.last().unwrap().0
}

#[test]
fn state_builtin_discovers_and_transitions_reflected_states() {
    let states = states();
    let mut machine = menu();

    let result = run(&states, &mut machine, "state get GameState");
    assert_eq!(result.lines.last().unwrap().1, "GameState = Menu");

    let result = run(&states, &mut machine, "state set GameState Playing");
    assert_eq!(machine.next.as_deref(), Some("Playing"));
    assert_eq!(result.lines.last().unwrap().1, "GameState = Playing (pending)");
}

#[test]
fn submitted_state_syntax_is_case_sensitive() {
    let states = states();
    let mut machine = menu();
    for command in ["state GET GameState", "state get gamestate", "state set GameState playing"] {
        let result = run(&states, &mut machine, command);
        assert_eq!(level(&result), ConsoleLevel::Error);
    }
    assert!(machine.next.is_none());
}

#[test]
fn only_console_registered_states_are_cached_and_exposed() {
    let states = states();
    assert!(states.get("gamestate").is_none());
    assert!(states.search("gamestate").is_some());
    assert!(states.get("InspectorState").is_none());
}

#[test]
fn state_command_rejects_data_carrying_variants() {
    let states = states();
    let mut machine = menu();
    let result = run(&states, &mut machine, "state set GameState Loading");
    assert!(machine.next.is_none());
    assert_eq!(level(&result), ConsoleLevel::Error);
    assert_eq!(
        result.lines[0].1,
        "Invalid value for GameState: Loading has data; only unit enum variants are supported"
    );
}

#[test]
fn state_command_rejects_extra_arguments() {
    let states = states();
    let mut machine = menu();
    for command in ["state get GameState ignored", "state set GameState Playing ignored"] {
        let result = run(&states, &mut machine, command);
        assert_eq!(level(&result), ConsoleLevel::Error);
    }
    assert!(machine.next.is_none());
}

#[test]
fn duplicate_enum_names_use_full_type_paths() {
    let mut states = ConsoleStates::new();
    states.register(game_state("first::GameState")).unwrap();
    states.register(game_state("second::GameState")).unwrap();
    let names: Vec<&str> = (0..states.len()).map(|index| states.name(index)).collect();

    assert!(names.contains(&"first::GameState"));
    assert!(names.contains(&"second::GameState"));
}

// ── further cases ──────────────────────────────────────────────────────────

#[test]
fn unknown_values_list_the_unit_variants() {
    let states = states();
    let mut machine = menu();
    let result = run(&states, &mut machine, "state set GameState Paused");
    assert_eq!(result.lines[0].1, "Invalid value for GameState: expected one of: Menu, Playing");
}

#[test]
fn unknown_states_and_bad_usage_are_reported() {
    let states = states();
    let mut machine = menu();
    let result = run(&states, &mut machine, "state get Missing");
    assert_eq!(result.lines[0].1, "Unknown reflected state: Missing. Call add_console_state::<S>() to expose it");
    assert_eq!(run(&states, &mut machine, "state").lines[0].1, "Usage: state <get|set> <state> [value]");
    assert_eq!(run(&states, &mut machine, "state get GameState x").lines[0].1, "Usage: state get <state>");
    assert_eq!(run(&states, &mut machine, "state set GameState").lines[0].1, "Usage: state set <state> <value>");
    assert_eq!(run(&states, &mut machine, "state flip GameState").lines[0].1, "Usage: state <get|set> <state> [value]");
}

#[test]
fn states_answer_to_their_full_path_too() {
    let states = states();
    assert_eq!(states.get("game::GameState"), Some(0));
    assert_eq!(states.unit_variants(0), vec!["Menu".to_string(), "Playing".to_string()]);
}

#[test]
fn exposing_a_state_twice_is_refused() {
    let mut states = states();
    assert_eq!(states.register(game_state("game::GameState")), Err(StateRegistrationError::AlreadyRegistered));
    assert_eq!(states.len(), 1);
}

#[test]
fn a_name_clash_that_full_paths_cannot_resolve_is_refused() {
    let mut states = ConsoleStates::new();
    states.register(StateEntry { short_name: "X".into(), type_path: "p::A".into(), variants: Vec::new() }).unwrap();
    states.register(StateEntry { short_name: "X".into(), type_path: "r::C".into(), variants: Vec::new() }).unwrap();
    assert_eq!(states.name(0), "p::A");
    let clash = StateEntry { short_name: "p::A".into(), type_path: "q::B".into(), variants: Vec::new() };
    assert_eq!(states.register(clash), Err(StateRegistrationError::Ambiguous));
    assert_eq!(states.len(), 2);
    assert_eq!(states.name(0), "p::A");
}

#[test]
fn case_insensitive_search_needs_a_single_match() {
    let mut states = ConsoleStates::new();
    states.register(game_state("first::GameState")).unwrap();
    states.register(game_state("second::GameState")).unwrap();
    assert_eq!(states.search("FIRST::gamestate"), Some(0));
    states.register(inspector_state()).unwrap();
    assert_eq!(states.search("inspectorstate"), Some(2));
    assert_eq!(states.search("nothing"), None);
}

#[test]
fn failed_reads_and_transitions_are_reported() {
    let states = states();
    let reply = state_value_reply(&states, 0, Err("State `GameState` is not initialized"));
    assert_eq!(reply.lines, vec![(ConsoleLevel::Error, "State `GameState` is not initialized".to_string())]);
    let reply = state_transition_reply(&states, 0, Err("boom"));
    assert_eq!(reply.lines, vec![(ConsoleLevel::Error, "Invalid value for GameState: boom".to_string())]);
    assert_eq!(state_uninitialized(&states, 0), "State `GameState` is not initialized");
}

#[test]
fn state_completion_offers_operations_states_and_unit_variants() {
    let mut states = states();
    states.register(inspector_state()).unwrap();
    let complete = |input: &str| {
        let parsed = ParsedInput::parse(input);
        let index = parsed.active_argument_index().unwrap();
        let request = CompletionRequest::new(parsed, "state", index);
        complete_state(&request, &states).into_iter().map(|item| item.label).collect::<Vec<_>>()
    };
    assert_eq!(complete("state "), ["get", "set"]);
    assert_eq!(complete("state get "), ["GameState", "InspectorState"]);
    assert_eq!(complete("state SET gamestate "), ["Menu", "Playing"]);
    assert!(complete("state get GameState ").is_empty());
}
