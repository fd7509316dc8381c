use chill_bevy_console::model::CommandSpec;
use chill_bevy_console::registry::ConsoleRegistry;

fn register_or_panic(registry: &mut ConsoleRegistry, spec: CommandSpec, executor: u64) {
    if let Err(conflict) = registry.register(spec, executor, None) {
        panic!("{}", conflict.message());
    }
}

#[test]
fn replacing_a_command_removes_its_stale_aliases() {
    let mut registry = ConsoleRegistry::new();
    register_or_panic(&mut registry, CommandSpec::new("map", "map").with_alias("ChangeLevel"), 1);
    register_or_panic(&mut registry, CommandSpec::new("map", "map").with_alias("LoadMap"), 2);

    assert!(registry.get("changelevel").is_none());
    assert!(registry.get("LoadMap").is_some());
    assert!(registry.get("LOADMAP").is_none());
    assert!(registry.search("LOADMAP").is_some());
    assert!(!registry.contains("changelevel"));
    assert!(registry.contains("LoadMap"));
    assert!(!registry.contains("LOADMAP"));
    assert_eq!(registry.command_names(), ["map"]);
}

#[test]
#[should_panic(expected = "collides with registered command")]
fn alias_cannot_shadow_a_registered_command() {
    let mut registry = ConsoleRegistry::new();
    register_or_panic(&mut registry, CommandSpec::new("foo", "foo"), 1);
    register_or_panic(&mut registry, CommandSpec::new("bar", "bar").with_alias("foo"), 2);
}

#[test]
#[should_panic(expected = "collides with alias")]
fn command_cannot_shadow_a_registered_alias() {
    let mut registry = ConsoleRegistry::new();
    register_or_panic(&mut registry, CommandSpec::new("bar", "bar").with_alias("foo"), 1);
    register_or_panic(&mut registry, CommandSpec::new("foo", "foo"), 2);
}

#[test]
fn conflicts_leave_the_registry_unchanged() {
    let mut registry = ConsoleRegistry::new();
    register_or_panic(&mut registry, CommandSpec::new("foo", "foo"), 1);
    let refused = registry.register(CommandSpec::new("bar", "bar").with_alias("foo"), 2, None);
    let message = refused.err().map(|conflict| conflict.message());
    assert_eq!(
        message.as_deref(),
        Some("alias `foo` for `bar` collides with registered command")
    );
    assert_eq!(registry.command_names(), ["foo"]);
    assert!(!registry.contains("bar"));
}

#[test]
fn an_alias_cannot_repeat_its_command_or_itself() {
    let mut registry = ConsoleRegistry::new();
    let own = registry.register(CommandSpec::new("quit", "quit").with_alias("quit"), 1, None);
    assert_eq!(
        own.err().map(|conflict| conflict.message()).as_deref(),
        Some("command `quit` cannot alias itself")
    );
    let twice = registry.register(
        CommandSpec::new("quit", "quit").with_alias("exit").with_alias("exit"),
        1,
        None,
    );
    assert_eq!(
        twice.err().map(|conflict| conflict.message()).as_deref(),
        Some("alias `exit` is repeated for command `quit`")
    );
    assert_eq!(registry.len(), 0);
}
