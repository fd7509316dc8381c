use chill_bevy_console::buffer::{ConsoleLevel, ConsoleResult};
use chill_bevy_console::commands::{builtin_spec, enabled_builtins};
use chill_bevy_console::config::{BuiltinCommand, BuiltinCommands};
use chill_bevy_console::model::CompletionRequest;
use chill_bevy_console::parser::ParsedInput;
use chill_bevy_console::registry::ConsoleRegistry;
use chill_bevy_console::resources::{
    adjusted_signed, adjusted_unsigned,
    complete_res, describe_fields, parse_bool_value, plan_res_command, res_adjust_reply, res_assign_reply,
    res_value_reply, toggle_step, ConsoleProperty, ConsoleResources, FieldInfo, PropertyKind, ResPlan, ResourceError,
    ToggleStep,
};
use chill_bevy_console::Args;

fn field(name: &str, kind: Option<PropertyKind>, docs: Option<&str>, property: Option<ConsoleProperty>) -> FieldInfo {
    FieldInfo { name: name.to_string(), property, docs: docs.map(str::to_string), kind }
}

fn debug_settings_fields() -> Vec<FieldInfo> {
    vec![
        field("draw_colliders", Some(PropertyKind::Boolean), Some(" Draw collider shapes"), None),
        field("label", Some(PropertyKind::Other), None, Some(ConsoleProperty::readonly())),
        field("max_fps", Some(PropertyKind::Numeric), None, None),
        field("ignored_unsupported_type", None, None, None),
    ]
}

/// The host's copy of the resource.
struct DebugSettings {
    draw_colliders: bool,
    label: String,
    max_fps: u32,
}

impl DebugSettings {
    fn read(&self, field: &str) -> String {
        match field {
            "draw_colliders" => self.draw_colliders.to_string(),
            "label" => self.label.clone(),
            _ => self.max_fps.to_string(),
        }
    }

    fn write(&mut self, field: &str, input: &str) -> Result<String, String> {
        match field {
            "draw_colliders" => {
                self.draw_colliders = parse_bool_value(input)?;
            }
            "label" => self.label = input.to_string(),
            _ => self.max_fps = input.parse().map_err(|_| "expected an unsigned integer".to_string())?,
        }
        Ok(self.read(field))
    }

    fn adjust(&mut self, amount: &str, subtract: bool) -> Result<String, String> {
        let amount: u32 = amount.parse().map_err(|_| "expected an unsigned integer".to_string())?;
        let value = if subtract { self.max_fps.checked_sub(amount) } else { self.max_fps.checked_add(amount) };
        self.max_fps = value.ok_or_else(|| "result would overflow".to_string())?;
        Ok(self.read("max_fps"))
    }
}

/// Runs one `res` command the way the host does.
fn run(resources: &ConsoleResources, settings: &mut DebugSettings, input: &str) -> ConsoleResult {
    let parsed = ParsedInput::parse(input);
    let args = Args::from_parsed(&parsed);
    let name = args.get(1).unwrap_or("").to_string();
    match plan_res_command(resources, &args) {
        ResPlan::Reply(result) => result,
        ResPlan::Show(index) => {
            let value = settings.read(&resources.entry(index).field_name);
            res_value_reply(resources, index, &name, Ok(&value))
        }
        ResPlan::Assign(index, value) => {
            let field = resources.entry(index).field_name.clone();
            match settings.write(&field, &value) {
                Ok(v) => res_assign_reply(&name, Ok(&v)),
                Err(e) => res_assign_reply(&name, Err(&e)),
            }
        }
        ResPlan::Adjust(_, amount, subtract) => match settings.adjust(&amount, subtract) {
            Ok(v) => res_adjust_reply(&name, Ok(&v)),
            Err(e) => res_adjust_reply(&name, Err(&e)),
        },
        ResPlan::Toggle(index) => {
            let field = resources.entry(index).field_name.clone();
            let current = settings.read(&field);
            match toggle_step(&name, Some(&current)) {
                ToggleStep::Reply(result) => result,
                ToggleStep::Write(next) => match settings.write(&field, next) {
                    Ok(v) => res_assign_reply(&name, Ok(&v)),
                    Err(e) => res_assign_reply(&name, Err(&e)),
                },
            }
        }
    }
}

fn registered() -> ConsoleResources {
    let mut resources = ConsoleResources::new();
    let props = describe_fields("DebugSettings", "game::DebugSettings", &debug_settings_fields()).unwrap();
    resources.register(props).unwrap();
    resources
}

fn text(result: &ConsoleResult) -> &str {
    &result.lines.last().unwrap().1
}

fn level(result: &ConsoleResult) -> ConsoleLevel {
    result.lines.last().unwrap().0
}

#[test]
fn res_builtin_enables_property_commands() {
    let mut registry = ConsoleRegistry::new();
    for command in enabled_builtins(&BuiltinCommands::from_commands(&[BuiltinCommand::Res])) {
        registry.register(builtin_spec(command), 1, Some(2)).unwrap();
    }
    assert!(registry.get("get").is_none());
    assert!(registry.get("res").is_some());
}

#[test]
fn reflected_properties_mutate_the_registered_resource() {
    let resources = registered();
    let mut settings = DebugSettings { draw_colliders: false, label: "development".into(), max_fps: 60 };
    assert!(resources.get("DebugSettings.ignored_unsupported_type").is_none());
    let parsed = ParsedInput::parse("res get ");
    let request = CompletionRequest::new(parsed, "res", 1);
    assert!(complete_res(&request, &resources).iter().any(|item| item.label == "DebugSettings.draw_colliders"));

    let result = run(&resources, &mut settings, "res get DebugSettings.draw_colliders");
    assert_eq!(text(&result), "DebugSettings.draw_colliders = false - Draw collider shapes");

    run(&resources, &mut settings, "ReS SeT debugsettings.DRAW_COLLIDERS true");
    assert!(settings.draw_colliders);

    run(&resources, &mut settings, "res set DebugSettings.label production");
    assert_eq!(settings.label, "development");

    let result = run(&resources, &mut settings, "res set DebugSettings.draw_colliders maybe");
    assert_eq!(level(&result), ConsoleLevel::Error);
    assert!(!result.succeeded());

    let result = run(&resources, &mut settings, "res add DebugSettings.max_fps invalid");
    assert_eq!(level(&result), ConsoleLevel::Error);
    assert_eq!(settings.max_fps, 60);

    run(&resources, &mut settings, "res add DebugSettings.max_fps 24");
    assert_eq!(settings.max_fps, 84);

    run(&resources, &mut settings, "res sub DebugSettings.max_fps 30");
    assert_eq!(settings.max_fps, 54);

    run(&resources, &mut settings, "res toggle DebugSettings.draw_colliders");
    assert!(!settings.draw_colliders);

    for command in [
        "res get DebugSettings.max_fps ignored",
        "res set DebugSettings.max_fps 120 ignored",
        "res add DebugSettings.max_fps 1 ignored",
        "res sub DebugSettings.max_fps 1 ignored",
        "res toggle DebugSettings.draw_colliders ignored",
    ] {
        let result = run(&resources, &mut settings, command);
        assert_eq!(level(&result), ConsoleLevel::Error, "extra arguments should be rejected for `{command}`");
    }
    assert_eq!(settings.max_fps, 54);
    assert!(!settings.draw_colliders);
}

#[test]
fn application_specific_property_values_can_be_registered() {
    let mut resources = ConsoleResources::new();
    let props = describe_fields(
        "CustomSettings",
        "game::CustomSettings",
        &vec![field("value", Some(PropertyKind::Other), None, None)],
    )
    .unwrap();
    resources.register(props).unwrap();

    let index = resources.get("CustomSettings.value").unwrap();
    assert_eq!(resources.entry(index).kind, PropertyKind::Other);
    let args = Args::from_parsed(&ParsedInput::parse("res set CustomSettings.value 7"));
    match plan_res_command(&resources, &args) {
        ResPlan::Assign(i, value) => {
            assert_eq!(i, index);
            assert_eq!(value, "7");
        }
        _ => panic!("a writable property accepts a value"),
    }
}

#[test]
fn duplicate_resource_names_use_full_type_paths() {
    let mut resources = ConsoleResources::new();
    let fields = vec![field("value", Some(PropertyKind::Numeric), None, None)];
    resources.register(describe_fields("Settings", "first::Settings", &fields).unwrap()).unwrap();
    resources.register(describe_fields("Settings", "second::Settings", &fields).unwrap()).unwrap();

    assert!(resources.get("Settings.value").is_none());
    assert!(resources.get("first::Settings.value").is_some());
    assert!(resources.get("second::Settings.value").is_some());
}

// ── further cases ──────────────────────────────────────────────────────────

#[test]
fn booleans_read_in_several_spellings() {
    for input in ["true", "TRUE", "1", "on", "On"] {
        assert_eq!(parse_bool_value(input), Ok(true));
    }
    for input in ["false", "0", "off", "OFF"] {
        assert_eq!(parse_bool_value(input), Ok(false));
    }
    assert_eq!(parse_bool_value("maybe"), Err("expected a boolean (true/false)".to_string()));
}

#[test]
fn properties_are_listed_in_name_order_with_their_help() {
    let resources = registered();
    let parsed = ParsedInput::parse("res get ");
    let request = CompletionRequest::new(parsed, "res", 1);
    let items = complete_res(&request, &resources);
    let pairs: Vec<(&str, &str)> = items.iter().map(|item| (item.label.as_str(), item.detail.as_str())).collect();
    assert_eq!(
        pairs,
        [
            ("DebugSettings.draw_colliders", "Draw collider shapes"),
            ("DebugSettings.label", "resource property"),
            ("DebugSettings.max_fps", "resource property"),
        ]
    );
}

#[test]
fn completion_filters_properties_by_operation() {
    let resources = registered();
    let names = |input: &str, index: usize| {
        let request = CompletionRequest::new(ParsedInput::parse(input), "res", index);
        complete_res(&request, &resources).into_iter().map(|item| item.label).collect::<Vec<_>>()
    };
    assert_eq!(names("res toggle ", 1), ["DebugSettings.draw_colliders"]);
    assert_eq!(names("res add ", 1), ["DebugSettings.max_fps"]);
    assert_eq!(names("res set ", 1), ["DebugSettings.draw_colliders", "DebugSettings.max_fps"]);
    assert_eq!(names("res set DebugSettings.draw_colliders ", 2), ["true", "false"]);
    assert!(names("res set DebugSettings.max_fps ", 2).is_empty());
    assert_eq!(names("res ", 0), ["add", "get", "set", "sub", "toggle"]);
}

#[test]
fn refusals_name_the_property_as_typed() {
    let resources = registered();
    let mut settings = DebugSettings { draw_colliders: false, label: "x".into(), max_fps: 1 };
    assert_eq!(text(&run(&resources, &mut settings, "res get nothing")), "Unknown property: nothing");
    assert_eq!(
        text(&run(&resources, &mut settings, "res set debugsettings.label y")),
        "Invalid value for debugsettings.label: debugsettings.label is read-only"
    );
    assert_eq!(
        text(&run(&resources, &mut settings, "res add DebugSettings.label 1")),
        "Invalid amount for DebugSettings.label: DebugSettings.label is not a numeric property"
    );
    assert_eq!(
        text(&run(&resources, &mut settings, "res toggle DebugSettings.max_fps")),
        "DebugSettings.max_fps is not a boolean property"
    );
    assert_eq!(text(&run(&resources, &mut settings, "res ADD x")), "Usage: res ADD <property> <amount>");
    assert_eq!(
        text(&run(&resources, &mut settings, "res sub DebugSettings.max_fps 5")),
        "Invalid amount for DebugSettings.max_fps: result would overflow"
    );
}

#[test]
fn toggling_needs_a_readable_boolean() {
    match toggle_step("p", None) {
        ToggleStep::Reply(result) => assert_eq!(text(&result), "Unable to read property: p"),
        ToggleStep::Write(_) => panic!("nothing to flip"),
    }
    assert!(matches!(toggle_step("p", Some("TRUE")), ToggleStep::Write("false")));
    assert!(matches!(toggle_step("p", Some("false")), ToggleStep::Write("true")));
    assert!(matches!(toggle_step("p", Some("7")), ToggleStep::Reply(_)));
}

#[test]
fn registration_refusals() {
    let mut resources = registered();
    assert_eq!(resources.register(Vec::new()), Err(ResourceError::NoFields));
    let again = describe_fields("DebugSettings", "game::DebugSettings", &debug_settings_fields()).unwrap();
    assert_eq!(resources.register(again), Err(ResourceError::AlreadyRegistered));
    let empty_name = vec![field("x", Some(PropertyKind::Numeric), None, Some(ConsoleProperty::new().with_name("")))];
    assert_eq!(describe_fields("S", "a::S", &empty_name).err(), Some(ResourceError::EmptyFieldName));
    let renamed = vec![
        field("a", Some(PropertyKind::Numeric), None, Some(ConsoleProperty::new().with_name("same"))),
        field("b", Some(PropertyKind::Numeric), None, Some(ConsoleProperty::new().with_name("SAME"))),
    ];
    let props = describe_fields("T", "a::T", &renamed).unwrap();
    assert_eq!(resources.register(props), Err(ResourceError::DuplicateName));
    assert_eq!(resources.len(), 3);
}

#[test]
fn field_options_override_name_help_and_access() {
    let options = ConsoleProperty::new().with_name("fps").with_help("Frames per second").with_readonly();
    let props = describe_fields(
        "Video",
        "game::Video",
        &vec![field("max_fps", Some(PropertyKind::Numeric), Some("ignored docs"), Some(options))],
    )
    .unwrap();
    assert_eq!(props[0].name, "Video.fps");
    assert_eq!(props[0].field_name, "max_fps");
    assert_eq!(props[0].help, "Frames per second");
    assert!(props[0].readonly);
}

#[test]
fn integer_adjustment_stays_in_the_type_range() {
    assert_eq!(adjusted_signed(100, 27, false, i8::MIN as i128, i8::MAX as i128), Ok(127));
    assert_eq!(
        adjusted_signed(100, 28, false, i8::MIN as i128, i8::MAX as i128),
        Err("result would overflow".to_string())
    );
    assert_eq!(adjusted_signed(-100, 28, true, i8::MIN as i128, i8::MAX as i128), Ok(-128));
    assert_eq!(
        adjusted_signed(i128::MIN, 1, true, i128::MIN, i128::MAX),
        Err("result would overflow".to_string())
    );
    assert_eq!(adjusted_unsigned(3, 4, true, u8::MAX as u128), Err("result would overflow".to_string()));
    assert_eq!(adjusted_unsigned(250, 5, false, u8::MAX as u128), Ok(255));
    assert_eq!(adjusted_unsigned(u128::MAX, 1, false, u128::MAX), Err("result would overflow".to_string()));
}
