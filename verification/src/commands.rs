//! The built-in `help`, `clear`, `alias` and `bind` commands and their
//! argument completers.

use crate::aliases::ConsoleAliases;
use crate::args::{spec_raw_rest, Args, ArgsView};
use crate::buffer::{result_lines, BufferView, ConsoleBuffer, ConsoleLevel, ConsoleResult};
use crate::config::{BuiltinCommand, BuiltinCommands};
use crate::model::{ArgumentSpec, CommandSpec};
use crate::completion::{
    completion_plan, plain_item, rank_completions, runtime_command_completions, runtime_command_items,
    static_completion_items, PlanView,
};
use crate::parser::{spec_active_argument, spec_active_fragment, spec_replacement, ParsedInputView};
use crate::keys::{
    binding_label, binding_named, chord_code, chord_label, code_modifiers, key_name_of,
    lemma_code_parts, parse_key_binding, ConsoleBinds, ConsoleKeyBinding,
};
use crate::model::{CompletionItem, CompletionRequest, ItemView, RequestView};
use crate::registry::{alias_views, resolve, CommandDef, ConsoleRegistry};
use crate::state::{next_revision, ConsoleState, StateView};
use crate::table::table_map;
use crate::text::{
    cat, copy_str, eq_ignore_case, join_strings, join_with, lower_seq, str_eq, str_eq_ignore_case,
    to_ascii_lowercase,
};
use vstd::prelude::*;

verus! {

broadcast use vstd::string::group_string_axioms;

/// One info line.
pub open spec fn info(t: Seq<char>) -> Seq<(ConsoleLevel, Seq<char>)> {
    seq![(ConsoleLevel::Info, t)]
}

/// One error line.
pub open spec fn error(t: Seq<char>) -> Seq<(ConsoleLevel, Seq<char>)> {
    seq![(ConsoleLevel::Error, t)]
}

// ── help ─────────────────────────────────────────────────────────────────────

/// The usage lines of the visible commands, in name order.
pub open spec fn visible_usages(defs: Seq<CommandDef>) -> Seq<Seq<char>>
    decreases defs.len(),
{
    if defs.len() == 0 {
        Seq::empty()
    } else {
        let prev = visible_usages(defs.drop_last());
        if defs.last().spec.hidden {
            prev
        } else {
            prev.push(defs.last().spec.usage@)
        }
    }
}

/// The help for one command: its usage line; its long help (else its
/// summary) when that is not empty and differs from the usage; and its
/// registered aliases.
pub open spec fn command_help(d: CommandDef) -> Seq<char> {
    let help = match d.spec.long_help {
        Some(h) => h@,
        None => d.spec.summary@,
    };
    let lines1 = seq![d.spec.usage@];
    let lines2 = if help.len() > 0 && help != d.spec.usage@ {
        lines1.push(help)
    } else {
        lines1
    };
    let lines3 = if d.spec.aliases@.len() > 0 {
        lines2.push("Aliases: "@ + join_with(alias_views(d.spec), ", "@))
    } else {
        lines2
    };
    join_with(lines3, "\n"@)
}

/// `help [command]`: the named command's help, or every visible command's
/// usage line.
pub open spec fn help_output(a: ArgsView, defs: Seq<CommandDef>) -> Seq<(ConsoleLevel, Seq<char>)> {
    if a.values.len() > 0 {
        let name = a.values[0];
        match resolve(defs, name) {
            None => error("Unknown command: "@ + name),
            Some(i) => info(command_help(defs[i])),
        }
    } else {
        info(join_with(visible_usages(defs), "\n"@))
    }
}

/// The `help` command (see [`help_output`]).
pub fn help_cmd(args: &Args, registry: &ConsoleRegistry) -> (r: ConsoleResult)
    ensures
        result_lines(r) == help_output(args@, registry.defs()),
{
    if let Some(name) = args.get(0) {
        return match registry.get(name) {
            None => ConsoleResult::error(cat("Unknown command: ", name).as_str()),
            Some(def) => {
                let help = match def.spec.long_help {
                    Some(h) => h,
                    None => def.spec.summary,
                };
                let mut lines: Vec<String> = Vec::new();
                lines.push(copy_str(def.spec.usage));
                if !help.is_empty() && !str_eq(help, def.spec.usage) {
                    lines.push(copy_str(help));
                }
                if def.spec.aliases.len() > 0 {
                    let mut names: Vec<String> = Vec::new();
                    let mut k: usize = 0;
                    while k < def.spec.aliases.len()
                        invariant
                            0 <= k <= def.spec.aliases@.len(),
                            names@.len() == k,
                            forall|j: int|
                                0 <= j < k ==> (#[trigger] names@[j])@ == def.spec.aliases@[j]@,
                        decreases def.spec.aliases@.len() - k,
                    {
                        names.push(copy_str(def.spec.aliases[k]));
                        k = k + 1;
                    }
                    assert(names@.map_values(|s: String| s@) =~= alias_views(def.spec));
                    let joined = join_strings(names.as_slice(), ", ");
                    lines.push(cat("Aliases: ", joined.as_str()));
                }
                let text = join_strings(lines.as_slice(), "\n");
                let ghost expected = {
                    let help = match def.spec.long_help {
                        Some(h) => h@,
                        None => def.spec.summary@,
                    };
                    let lines1 = seq![def.spec.usage@];
                    let lines2 = if help.len() > 0 && help != def.spec.usage@ {
                        lines1.push(help)
                    } else {
                        lines1
                    };
                    if def.spec.aliases@.len() > 0 {
                        lines2.push("Aliases: "@ + join_with(alias_views(def.spec), ", "@))
                    } else {
                        lines2
                    }
                };
                assert(lines@.map_values(|s: String| s@) =~= expected);
                ConsoleResult::info(text.as_str())
            },
        };
    }
    let n = registry.len();
    let ghost defs = registry.defs();
    let mut usages: Vec<String> = Vec::new();
    let mut i: usize = 0;
    assert(defs.take(0) =~= Seq::<CommandDef>::empty());
    assert(usages@.map_values(|s: String| s@) =~= Seq::<Seq<char>>::empty());
    while i < n
        invariant
            0 <= i <= n,
            n == defs.len(),
            defs == registry.defs(),
            usages@.map_values(|s: String| s@) == visible_usages(defs.take(i as int)),
        decreases n - i,
    {
        let d = registry.def_at(i);
        assert(defs.take(i + 1).drop_last() =~= defs.take(i as int));
        let ghost before = usages@.map_values(|s: String| s@);
        if !d.spec.hidden {
            usages.push(copy_str(d.spec.usage));
            assert(usages@.map_values(|s: String| s@) =~= before.push(d.spec.usage@));
        }
        i = i + 1;
    }
    assert(defs.take(n as int) =~= defs);
    let text = join_strings(usages.as_slice(), "\n");
    ConsoleResult::info(text.as_str())
}

// ── clear ────────────────────────────────────────────────────────────────────

/// `clear [--history]`: the output is cleared; with transcript persistence,
/// `--history` (alone, any ASCII case) also forgets command recall.
pub fn clear_cmd(
    args: &Args,
    buffer: &mut ConsoleBuffer,
    state: &mut ConsoleState,
    persistent_history: bool,
) -> (r: ConsoleResult)
    ensures
        result_lines(r).len() == 0,
        final(buffer)@ == (BufferView { lines: Seq::empty(), ..old(buffer)@ }),
        if persistent_history && args@.values.len() == 1 && eq_ignore_case(
            args@.values[0],
            "--history"@,
        ) {
            final(state)@ == (StateView {
                history: Seq::empty(),
                line_ids: Seq::empty(),
                history_index: None,
                draft: Seq::empty(),
                pending: None,
                revision: next_revision(old(state)@.revision),
                ..old(state)@
            })
        } else {
            final(state)@ == old(state)@
        },
{
    buffer.clear();
    if persistent_history && args.len() == 1 {
        if let Some(arg) = args.get(0) {
            if str_eq_ignore_case(arg, "--history") {
                state.clear_command_history();
            }
        }
    }
    let r = ConsoleResult::default();
    assert(result_lines(r) =~= Seq::<(ConsoleLevel, Seq<char>)>::empty());
    r
}

// ── alias ────────────────────────────────────────────────────────────────────

/// The general usage line of `alias`.
pub open spec fn alias_usage() -> Seq<char> {
    "Usage: alias <list|get|set|remove> [name] [command...]"@
}

/// `alias list`: one `name = expansion` line per alias, in name order.
pub open spec fn alias_list_output(entries: Seq<(Seq<char>, Seq<char>)>) -> Seq<(ConsoleLevel, Seq<char>)> {
    if entries.len() == 0 {
        info("No runtime aliases defined"@)
    } else {
        info(
            join_with(
                entries.map_values(|e: (Seq<char>, Seq<char>)| e.0 + " = "@ + e.1),
                "\n"@,
            ),
        )
    }
}

/// `alias <list|get|set|remove> [name] [command...]`: the aliases afterwards
/// (lower-case name to expansion) and the output. `set` refuses a name that
/// names a registered command and stores the rest of the line as written.
pub open spec fn alias_outcome(
    a: ArgsView,
    defs: Seq<CommandDef>,
    m: Map<Seq<char>, Seq<char>>,
    entries: Seq<(Seq<char>, Seq<char>)>,
) -> (Map<Seq<char>, Seq<char>>, Seq<(ConsoleLevel, Seq<char>)>) {
    let n = a.values.len();
    if n == 0 {
        (m, error(alias_usage()))
    } else {
        let op = lower_seq(a.values[0]);
        if op == "list"@ && n == 1 {
            (m, alias_list_output(entries))
        } else if op == "get"@ {
            if n != 2 {
                (m, error("Usage: alias get <name>"@))
            } else {
                let name = a.values[1];
                if m.contains_key(lower_seq(name)) {
                    (m, info(name + " = "@ + m[lower_seq(name)]))
                } else {
                    (m, error("Unknown alias: "@ + name))
                }
            }
        } else if op == "set"@ {
            if n < 3 {
                (m, error("Usage: alias set <name> <command...>"@))
            } else {
                let name = a.values[1];
                if resolve(defs, name) is Some {
                    (
                        m,
                        error(
                            "Cannot create alias `"@ + name
                                + "`: it is already a registered command"@,
                        ),
                    )
                } else {
                    let e = spec_raw_rest(a, 2);
                    (m.insert(lower_seq(name), e), info(name + " = "@ + e))
                }
            }
        } else if op == "remove"@ {
            if n != 2 {
                (m, error("Usage: alias remove <name>"@))
            } else {
                let name = a.values[1];
                if m.contains_key(lower_seq(name)) {
                    (m.remove(lower_seq(name)), info("Removed alias: "@ + name))
                } else {
                    (m, error("Unknown alias: "@ + name))
                }
            }
        } else {
            (m, error(alias_usage()))
        }
    }
}

/// The `alias` command (see [`alias_outcome`]).
pub fn alias_cmd(args: &Args, registry: &ConsoleRegistry, aliases: &mut ConsoleAliases) -> (r:
    ConsoleResult)
    ensures
        (final(aliases)@, result_lines(r)) == alias_outcome(
            args@,
            registry.defs(),
            old(aliases)@,
            old(aliases).entries(),
        ),
{
    let operation = match args.get(0) {
        Some(op) => op,
        None => {
            return ConsoleResult::error("Usage: alias <list|get|set|remove> [name] [command...]");
        },
    };
    let lowered = to_ascii_lowercase(operation);
    let op = lowered.as_str();
    let n = args.len();
    if str_eq(op, "list") && n == 1 {
        let entries = aliases.iter();
        if entries.len() == 0 {
            return ConsoleResult::info("No runtime aliases defined");
        }
        let mut lines: Vec<String> = Vec::new();
        let mut k: usize = 0;
        while k < entries.len()
            invariant
                0 <= k <= entries@.len(),
                entries@.map_values(|e: (String, String)| (e.0@, e.1@)) == aliases.entries(),
                lines@.len() == k,
                forall|j: int|
                    0 <= j < k ==> (#[trigger] lines@[j])@ == aliases.entries()[j].0 + " = "@
                        + aliases.entries()[j].1,
            decreases entries@.len() - k,
        {
            let line = cat(entries[k].0.as_str(), " = ");
            let line = cat(line.as_str(), entries[k].1.as_str());
            assert(aliases.entries()[k as int] == (entries@[k as int].0@, entries@[k as int].1@));
            lines.push(line);
            k = k + 1;
        }
        assert(lines@.map_values(|s: String| s@) =~= aliases.entries().map_values(
            |e: (Seq<char>, Seq<char>)| e.0 + " = "@ + e.1,
        ));
        return ConsoleResult::info(join_strings(lines.as_slice(), "\n").as_str());
    }
    if str_eq(op, "get") {
        if n != 2 {
            return ConsoleResult::error("Usage: alias get <name>");
        }
        let name = match args.get(1) {
            Some(name) => name,
            None => {
                return ConsoleResult::error("Usage: alias get <name>");
            },
        };
        return match aliases.get(name) {
            Some(expansion) => {
                let text = cat(name, " = ");
                ConsoleResult::info(cat(text.as_str(), expansion).as_str())
            },
            None => ConsoleResult::error(cat("Unknown alias: ", name).as_str()),
        };
    }
    if str_eq(op, "set") {
        if n < 3 {
            return ConsoleResult::error("Usage: alias set <name> <command...>");
        }
        let name = match args.get(1) {
            Some(name) => name,
            None => {
                return ConsoleResult::error("Usage: alias set <name> <command...>");
            },
        };
        if registry.contains(name) {
            let text = cat("Cannot create alias `", name);
            return ConsoleResult::error(
                cat(text.as_str(), "`: it is already a registered command").as_str(),
            );
        }
        let expansion = args.raw_rest(2);
        aliases.set(name, expansion.as_str());
        let text = cat(name, " = ");
        return ConsoleResult::info(cat(text.as_str(), expansion.as_str()).as_str());
    }
    if str_eq(op, "remove") {
        if n != 2 {
            return ConsoleResult::error("Usage: alias remove <name>");
        }
        let name = match args.get(1) {
            Some(name) => name,
            None => {
                return ConsoleResult::error("Usage: alias remove <name>");
            },
        };
        return match aliases.remove(name) {
            Some(_) => ConsoleResult::info(cat("Removed alias: ", name).as_str()),
            None => ConsoleResult::error(cat("Unknown alias: ", name).as_str()),
        };
    }
    ConsoleResult::error("Usage: alias <list|get|set|remove> [name] [command...]")
}

// ── bind ─────────────────────────────────────────────────────────────────────

/// The general usage line of `bind`.
pub open spec fn bind_usage() -> Seq<char> {
    "Usage: bind <list|get|set|remove> [key] [command...]"@
}

/// The label of the binding a code numbers.
pub open spec fn code_label(c: u64) -> Seq<char> {
    chord_label(code_modifiers(c), key_name_of((c / 16) as u32))
}

/// `bind list`: one `binding = command` line per binding, in binding order.
pub open spec fn bind_list_output(entries: Seq<(u64, Seq<char>)>) -> Seq<(ConsoleLevel, Seq<char>)> {
    if entries.len() == 0 {
        info("No runtime key bindings defined"@)
    } else {
        info(
            join_with(
                entries.map_values(|e: (u64, Seq<char>)| code_label(e.0) + " = "@ + e.1),
                "\n"@,
            ),
        )
    }
}

/// `bind <list|get|set|remove> [key] [command...]`: the bindings afterwards
/// (binding code to command) and the output. A key names a binding as
/// [`binding_named`] reads it.
pub open spec fn bind_outcome(
    a: ArgsView,
    m: Map<u64, Seq<char>>,
    entries: Seq<(u64, Seq<char>)>,
) -> (Map<u64, Seq<char>>, Seq<(ConsoleLevel, Seq<char>)>) {
    let n = a.values.len();
    if n == 0 {
        (m, error(bind_usage()))
    } else {
        let op = lower_seq(a.values[0]);
        if op == "list"@ && n == 1 {
            (m, bind_list_output(entries))
        } else if op == "get"@ || op == "set"@ || op == "remove"@ {
            let bad_arity = if op == "set"@ {
                n < 3
            } else {
                n != 2
            };
            if bad_arity {
                (
                    m,
                    error(
                        if op == "get"@ {
                            "Usage: bind get <key>"@
                        } else if op == "set"@ {
                            "Usage: bind set <key> <command...>"@
                        } else {
                            "Usage: bind remove <key>"@
                        },
                    ),
                )
            } else {
                let name = a.values[1];
                match binding_named(name) {
                    None => (m, error("Unknown key: "@ + name)),
                    Some((mods, k)) => {
                        let c = chord_code(mods, k);
                        let label = chord_label(mods, key_name_of(k));
                        if op == "get"@ {
                            if m.contains_key(c) {
                                (m, info(label + " = "@ + m[c]))
                            } else {
                                (m, error("No binding for "@ + label))
                            }
                        } else if op == "set"@ {
                            let command = spec_raw_rest(a, 2);
                            (m.insert(c, command), info(label + " = "@ + command))
                        } else {
                            if m.contains_key(c) {
                                (m.remove(c), info("Removed binding: "@ + label))
                            } else {
                                (m, error("No binding for "@ + label))
                            }
                        }
                    },
                }
            }
        } else {
            (m, error(bind_usage()))
        }
    }
}

/// The `bind` command (see [`bind_outcome`]).
pub fn bind_cmd(args: &Args, binds: &mut ConsoleBinds) -> (r: ConsoleResult)
    ensures
        (final(binds)@, result_lines(r)) == bind_outcome(args@, old(binds)@, old(binds).entries()),
{
    let operation = match args.get(0) {
        Some(op) => op,
        None => {
            return ConsoleResult::error("Usage: bind <list|get|set|remove> [key] [command...]");
        },
    };
    let lowered = to_ascii_lowercase(operation);
    let op = lowered.as_str();
    let n = args.len();
    if str_eq(op, "list") && n == 1 {
        let bindings = binds.iter();
        if bindings.len() == 0 {
            return ConsoleResult::info("No runtime key bindings defined");
        }
        let mut lines: Vec<String> = Vec::new();
        let mut k: usize = 0;
        while k < bindings.len()
            invariant
                0 <= k <= bindings@.len(),
                bindings@.len() == binds.entries().len(),
                forall|i: int|
                    0 <= i < bindings@.len() ==> crate::keys::binding_code((#[trigger] bindings@[i]).0)
                        == binds.entries()[i].0 && bindings@[i].1@ == binds.entries()[i].1,
                lines@.len() == k,
                forall|j: int|
                    0 <= j < k ==> (#[trigger] lines@[j])@ == code_label(binds.entries()[j].0)
                        + " = "@ + binds.entries()[j].1,
            decreases bindings@.len() - k,
        {
            let (binding, command) = &bindings[k];
            proof {
                lemma_code_parts(*binding);
            }
            let label = binding.label();
            let line = cat(label.as_str(), " = ");
            let line = cat(line.as_str(), command.as_str());
            lines.push(line);
            k = k + 1;
        }
        assert(lines@.map_values(|s: String| s@) =~= binds.entries().map_values(
            |e: (u64, Seq<char>)| code_label(e.0) + " = "@ + e.1,
        ));
        return ConsoleResult::info(join_strings(lines.as_slice(), "\n").as_str());
    }
    let is_get = str_eq(op, "get");
    let is_set = str_eq(op, "set");
    let is_remove = str_eq(op, "remove");
    if !(is_get || is_set || is_remove) {
        return ConsoleResult::error("Usage: bind <list|get|set|remove> [key] [command...]");
    }
    let bad_arity = if is_set {
        n < 3
    } else {
        n != 2
    };
    if bad_arity {
        return ConsoleResult::error(
            if is_get {
                "Usage: bind get <key>"
            } else if is_set {
                "Usage: bind set <key> <command...>"
            } else {
                "Usage: bind remove <key>"
            },
        );
    }
    let name = match args.get(1) {
        Some(name) => name,
        None => {
            return ConsoleResult::error("Usage: bind get <key>");
        },
    };
    let binding = match parse_key_binding(name) {
        Some(b) => b,
        None => {
            return ConsoleResult::error(cat("Unknown key: ", name).as_str());
        },
    };
    let label = binding.label();
    if is_get {
        match binds.get_binding(binding) {
            Some(command) => {
                let text = cat(label.as_str(), " = ");
                ConsoleResult::info(cat(text.as_str(), command).as_str())
            },
            None => ConsoleResult::error(cat("No binding for ", label.as_str()).as_str()),
        }
    } else if is_set {
        let command = args.raw_rest(2);
        binds.set_binding(binding, command.as_str());
        let text = cat(label.as_str(), " = ");
        ConsoleResult::info(cat(text.as_str(), command.as_str()).as_str())
    } else {
        match binds.remove_binding(binding) {
            Some(_) => ConsoleResult::info(cat("Removed binding: ", label.as_str()).as_str()),
            None => ConsoleResult::error(cat("No binding for ", label.as_str()).as_str()),
        }
    }
}

// ── completers ──────────────────────────────────────────────────────────────

/// The first argument of a completion request, if it has one.
pub open spec fn first_argument(r: RequestView) -> Option<Seq<char>> {
    if 1 < r.parsed.tokens.len() {
        Some(r.parsed.tokens[1].value)
    } else {
        None
    }
}

/// Every command and alias, when the first argument is `set` (ignoring ASCII
/// case); nothing otherwise.
pub open spec fn commands_after_set(
    r: RequestView,
    defs: Seq<CommandDef>,
    entries: Seq<(Seq<char>, Seq<char>)>,
) -> Seq<ItemView> {
    match first_argument(r) {
        Some(op) => if eq_ignore_case(op, "set"@) {
            runtime_command_items(defs, entries)
        } else {
            Seq::empty()
        },
        None => Seq::empty(),
    }
}

/// The operations of `alias`.
pub open spec fn alias_operations() -> Seq<ItemView> {
    seq![
        plain_item("list"@, "Lists runtime aliases"@),
        plain_item("get"@, "Shows an alias"@),
        plain_item("set"@, "Creates or updates an alias"@),
        plain_item("remove"@, "Removes an alias"@),
    ]
}

/// The operations of `bind`.
pub open spec fn bind_operations() -> Seq<ItemView> {
    seq![
        plain_item("list"@, "Lists runtime key bindings"@),
        plain_item("get"@, "Shows a key binding"@),
        plain_item("set"@, "Creates or updates a key binding"@),
        plain_item("remove"@, "Removes a key binding"@),
    ]
}

/// `alias` completion: operations first; then alias names after `get` or
/// `remove`; then any command after `set`.
pub open spec fn alias_completions(
    r: RequestView,
    defs: Seq<CommandDef>,
    entries: Seq<(Seq<char>, Seq<char>)>,
) -> Seq<ItemView> {
    if r.argument_index == 0 {
        alias_operations()
    } else if r.argument_index == 1 {
        match first_argument(r) {
            Some(op) => if eq_ignore_case(op, "get"@) || eq_ignore_case(op, "remove"@) {
                entries.map_values(|e: (Seq<char>, Seq<char>)| plain_item(e.0, e.1))
            } else {
                Seq::empty()
            },
            None => Seq::empty(),
        }
    } else if r.argument_index == 2 {
        commands_after_set(r, defs, entries)
    } else {
        Seq::empty()
    }
}

/// `bind` completion: operations first, then any command after `set`.
pub open spec fn bind_completions(
    r: RequestView,
    defs: Seq<CommandDef>,
    entries: Seq<(Seq<char>, Seq<char>)>,
) -> Seq<ItemView> {
    if r.argument_index == 0 {
        bind_operations()
    } else if r.argument_index == 2 {
        commands_after_set(r, defs, entries)
    } else {
        Seq::empty()
    }
}

fn empty_items() -> (r: Vec<CompletionItem>)
    ensures
        r@.map_values(|i: CompletionItem| i@) == Seq::<ItemView>::empty(),
{
    let r: Vec<CompletionItem> = Vec::new();
    assert(r@.map_values(|i: CompletionItem| i@) =~= Seq::<ItemView>::empty());
    r
}

fn complete_commands_after_set(
    request: &CompletionRequest,
    registry: &ConsoleRegistry,
    aliases: &ConsoleAliases,
) -> (r: Vec<CompletionItem>)
    ensures
        r@.map_values(|i: CompletionItem| i@) == commands_after_set(
            request@,
            registry.defs(),
            aliases.entries(),
        ),
{
    match request.argument(0) {
        Some(op) => if str_eq_ignore_case(op, "set") {
            runtime_command_completions(registry, aliases)
        } else {
            empty_items()
        },
        None => empty_items(),
    }
}

/// The `alias` completer (see [`alias_completions`]).
pub fn complete_alias(
    request: &CompletionRequest,
    aliases: &ConsoleAliases,
    registry: &ConsoleRegistry,
) -> (r: Vec<CompletionItem>)
    ensures
        r@.map_values(|i: CompletionItem| i@) == alias_completions(
            request@,
            registry.defs(),
            aliases.entries(),
        ),
{
    let index = request.argument_index();
    if index == 0 {
        let ops = [
            ("list", "Lists runtime aliases"),
            ("get", "Shows an alias"),
            ("set", "Creates or updates an alias"),
            ("remove", "Removes an alias"),
        ];
        let r = static_completion_items(&ops);
        assert(r@.map_values(|i: CompletionItem| i@) =~= alias_operations());
        return r;
    }
    if index == 1 {
        let wanted = match request.argument(0) {
            Some(op) => str_eq_ignore_case(op, "get") || str_eq_ignore_case(op, "remove"),
            None => false,
        };
        if !wanted {
            return empty_items();
        }
        let entries = aliases.iter();
        let mut out: Vec<CompletionItem> = Vec::new();
        let mut k: usize = 0;
        while k < entries.len()
            invariant
                0 <= k <= entries@.len(),
                entries@.map_values(|e: (String, String)| (e.0@, e.1@)) == aliases.entries(),
                out@.len() == k,
                forall|j: int|
                    0 <= j < k ==> (#[trigger] out@[j])@ == plain_item(
                        aliases.entries()[j].0,
                        aliases.entries()[j].1,
                    ),
            decreases entries@.len() - k,
        {
            assert(aliases.entries()[k as int] == (entries@[k as int].0@, entries@[k as int].1@));
            out.push(CompletionItem::new(entries[k].0.as_str(), entries[k].1.as_str()));
            k = k + 1;
        }
        assert(out@.map_values(|i: CompletionItem| i@) =~= aliases.entries().map_values(
            |e: (Seq<char>, Seq<char>)| plain_item(e.0, e.1),
        ));
        return out;
    }
    if index == 2 {
        return complete_commands_after_set(request, registry, aliases);
    }
    empty_items()
}

/// The `bind` completer (see [`bind_completions`]).
pub fn complete_bind(
    request: &CompletionRequest,
    registry: &ConsoleRegistry,
    aliases: &ConsoleAliases,
) -> (r: Vec<CompletionItem>)
    ensures
        r@.map_values(|i: CompletionItem| i@) == bind_completions(
            request@,
            registry.defs(),
            aliases.entries(),
        ),
{
    let index = request.argument_index();
    if index == 0 {
        let ops = [
            ("list", "Lists runtime key bindings"),
            ("get", "Shows a key binding"),
            ("set", "Creates or updates a key binding"),
            ("remove", "Removes a key binding"),
        ];
        let r = static_completion_items(&ops);
        assert(r@.map_values(|i: CompletionItem| i@) =~= bind_operations());
        return r;
    }
    if index == 2 {
        return complete_commands_after_set(request, registry, aliases);
    }
    empty_items()
}


// ── registration ─────────────────────────────────────────────────────────────

/// The name a built-in command is registered under.
pub open spec fn builtin_name(b: BuiltinCommand) -> Seq<char> {
    match b {
        BuiltinCommand::Clear => "clear"@,
        BuiltinCommand::Help => "help"@,
        BuiltinCommand::Alias => "alias"@,
        BuiltinCommand::Bind => "bind"@,
        BuiltinCommand::State => "state"@,
        BuiltinCommand::Res => "res"@,
    }
}

/// The argument names a built-in command describes, in order.
pub open spec fn builtin_arg_names(b: BuiltinCommand) -> Seq<Seq<char>> {
    match b {
        BuiltinCommand::Clear => Seq::empty(),
        BuiltinCommand::Help => seq!["command"@],
        BuiltinCommand::Alias => seq!["operation"@, "name"@, "command"@],
        BuiltinCommand::Bind => seq!["operation"@, "key"@, "command"@],
        BuiltinCommand::State => seq!["operation"@, "state"@, "value"@],
        BuiltinCommand::Res => seq!["operation"@, "property"@, "value"@],
    }
}

/// Whether a built-in command completes its arguments.
pub open spec fn builtin_completes(b: BuiltinCommand) -> bool {
    b == BuiltinCommand::Alias || b == BuiltinCommand::Bind || b == BuiltinCommand::State || b
        == BuiltinCommand::Res
}

/// Whether a built-in command completes its arguments (see [`builtin_completes`]).
pub fn builtin_has_completer(command: BuiltinCommand) -> (r: bool)
    ensures
        r == builtin_completes(command),
{
    match command {
        BuiltinCommand::Alias | BuiltinCommand::Bind | BuiltinCommand::State | BuiltinCommand::Res => true,
        BuiltinCommand::Clear | BuiltinCommand::Help => false,
    }
}

/// The description a built-in command is registered with: its name, usage
/// line, summary and arguments; visible and without aliases.
pub fn builtin_spec(command: BuiltinCommand) -> (r: CommandSpec)
    ensures
        r.name@ == builtin_name(command),
        r.args@.map_values(|a: ArgumentSpec| a.name@) == builtin_arg_names(command),
        r.aliases@.len() == 0,
        r.long_help is None,
        !r.hidden,
{
    proof {
        reveal_strlit("clear");
        reveal_strlit("help");
        reveal_strlit("alias");
        reveal_strlit("bind");
        reveal_strlit("state");
        reveal_strlit("res");
        reveal_strlit("command");
        reveal_strlit("operation");
        reveal_strlit("name");
        reveal_strlit("key");
        reveal_strlit("value");
        reveal_strlit("property");
    }
    let r = match command {
        BuiltinCommand::Clear => CommandSpec::new("clear", "clear - clear the console output").with_summary(
            "Clear the console output",
        ),
        BuiltinCommand::Help => CommandSpec::new(
            "help",
            "help [command] - show available commands or command help",
        ).with_summary("Show command help").with_args(
            vec![ArgumentSpec::new("command").help("Command to describe")],
        ),
        BuiltinCommand::Alias => CommandSpec::new(
            "alias",
            "alias <list|get|set|remove> [name] [command...] - manage runtime aliases",
        ).with_summary("Manage runtime command aliases").with_args(
            vec![
                ArgumentSpec::new("operation"),
                ArgumentSpec::new("name").help("Alias name"),
                ArgumentSpec::new("command").help("Command expansion"),
            ],
        ),
        BuiltinCommand::Bind => CommandSpec::new(
            "bind",
            "bind <list|get|set|remove> [key] [command...] - manage key bindings",
        ).with_summary("Manage runtime key bindings").with_args(
            vec![
                ArgumentSpec::new("operation"),
                ArgumentSpec::new("key").help("Key binding, e.g. meta+KeyW or F1"),
                ArgumentSpec::new("command").help("Command to run"),
            ],
        ),
        BuiltinCommand::State => CommandSpec::new(
            "state",
            "state <get|set> <state> [value] - inspect or change a reflected Bevy state",
        ).with_summary("Inspect or change a reflected Bevy state").with_args(
            vec![
                ArgumentSpec::new("operation"),
                ArgumentSpec::new("state").help("Reflected state type path"),
                ArgumentSpec::new("value").help("Unit enum variant"),
            ],
        ),
        BuiltinCommand::Res => CommandSpec::new(
            "res",
            "res <get|set|add|sub|toggle> <property> [value] - inspect or modify a resource property",
        ).with_summary("Inspect or modify a resource property").with_args(
            vec![
                ArgumentSpec::new("operation"),
                ArgumentSpec::new("property").help("Property name"),
                ArgumentSpec::new("value").help("Value or amount"),
            ],
        ),
    };
    assert(r.args@.map_values(|a: ArgumentSpec| a.name@) =~= builtin_arg_names(command));
    r
}

/// The enabled commands among `order`, in that order.
pub open spec fn enabled_among(order: Seq<BuiltinCommand>, enabled: Set<BuiltinCommand>) -> Seq<BuiltinCommand>
    decreases order.len(),
{
    if order.len() == 0 {
        Seq::empty()
    } else {
        let prev = enabled_among(order.drop_last(), enabled);
        if enabled.contains(order.last()) {
            prev.push(order.last())
        } else {
            prev
        }
    }
}

/// The enabled built-in commands, in the order they are registered.
pub fn enabled_builtins(enabled: &BuiltinCommands) -> (r: Vec<BuiltinCommand>)
    ensures
        r@ == enabled_among(
            seq![
                BuiltinCommand::Clear,
                BuiltinCommand::Help,
                BuiltinCommand::Alias,
                BuiltinCommand::Bind,
                BuiltinCommand::State,
                BuiltinCommand::Res,
            ],
            enabled@,
        ),
{
    let all = BuiltinCommand::all();
    let mut out: Vec<BuiltinCommand> = Vec::new();
    let mut i: usize = 0;
    assert(all@.take(0) =~= Seq::<BuiltinCommand>::empty());
    while i < 6
        invariant
            0 <= i <= 6,
            all@.len() == 6,
            out@ == enabled_among(all@.take(i as int), enabled@),
        decreases 6 - i,
    {
        assert(all@.take(i + 1).drop_last() =~= all@.take(i as int));
        if enabled.contains(all[i]) {
            out.push(all[i]);
        }
        i = i + 1;
    }
    assert(all@.take(6) =~= all@);
    out
}


// ── laws ─────────────────────────────────────────────────────────────────────

/// An alias reads back as it was set: after `alias set <name> <command...>`
/// succeeds, `alias get` of the same name in any ASCII case answers with
/// the expansion.
pub proof fn law_alias_set_then_get(
    set: ArgsView,
    get: ArgsView,
    defs: Seq<CommandDef>,
    m: Map<Seq<char>, Seq<char>>,
    entries_before: Seq<(Seq<char>, Seq<char>)>,
    entries_after: Seq<(Seq<char>, Seq<char>)>,
)
    requires
        set.values.len() >= 3,
        lower_seq(set.values[0]) == "set"@,
        resolve(defs, set.values[1]) is None,
        get.values.len() == 2,
        lower_seq(get.values[0]) == "get"@,
        eq_ignore_case(get.values[1], set.values[1]),
    ensures
        alias_outcome(get, defs, alias_outcome(set, defs, m, entries_before).0, entries_after).1 == info(
            get.values[1] + " = "@ + spec_raw_rest(set, 2),
        ),
{
    reveal_strlit("set");
    reveal_strlit("get");
    reveal_strlit("list");
    assert("set"@ != "list"@) by {
        assert("set"@.len() != "list"@.len());
    }
    assert("set"@ != "get"@) by {
        assert("set"@[0] != "get"@[0]);
    }
    assert("get"@ != "list"@) by {
        assert("get"@.len() != "list"@.len());
    }
    let m2 = alias_outcome(set, defs, m, entries_before).0;
    assert(m2 == m.insert(lower_seq(set.values[1]), spec_raw_rest(set, 2)));
    assert(m2.contains_key(lower_seq(get.values[1])));
}

/// A removed alias is gone: after `alias remove <name>` succeeds, `alias
/// get` of the same name in any ASCII case reports it unknown.
pub proof fn law_alias_remove_then_get(
    remove: ArgsView,
    get: ArgsView,
    defs: Seq<CommandDef>,
    m: Map<Seq<char>, Seq<char>>,
    entries_before: Seq<(Seq<char>, Seq<char>)>,
    entries_after: Seq<(Seq<char>, Seq<char>)>,
)
    requires
        remove.values.len() == 2,
        lower_seq(remove.values[0]) == "remove"@,
        get.values.len() == 2,
        lower_seq(get.values[0]) == "get"@,
        eq_ignore_case(get.values[1], remove.values[1]),
    ensures
        alias_outcome(get, defs, alias_outcome(remove, defs, m, entries_before).0, entries_after).1 == error(
            "Unknown alias: "@ + get.values[1],
        ),
{
    reveal_strlit("set");
    reveal_strlit("get");
    reveal_strlit("list");
    reveal_strlit("remove");
    assert("remove"@ != "list"@) by {
        assert("remove"@.len() != "list"@.len());
    }
    assert("remove"@ != "get"@) by {
        assert("remove"@[0] != "get"@[0]);
    }
    assert("remove"@ != "set"@) by {
        assert("remove"@[0] != "set"@[0]);
    }
    assert("get"@ != "list"@) by {
        assert("get"@.len() != "list"@.len());
    }
    let m2 = alias_outcome(remove, defs, m, entries_before).0;
    assert(!m2.contains_key(lower_seq(get.values[1])));
}

/// A binding reads back as it was set: after `bind set <key> <command...>`
/// with a known key, `bind get` of a key naming the same chord answers with
/// the chord's label and the command.
pub proof fn law_bind_set_then_get(
    set: ArgsView,
    get: ArgsView,
    m: Map<u64, Seq<char>>,
    entries_before: Seq<(u64, Seq<char>)>,
    entries_after: Seq<(u64, Seq<char>)>,
)
    requires
        set.values.len() >= 3,
        lower_seq(set.values[0]) == "set"@,
        binding_named(set.values[1]) is Some,
        get.values.len() == 2,
        lower_seq(get.values[0]) == "get"@,
        binding_named(get.values[1]) == binding_named(set.values[1]),
    ensures
        ({
            let (mods, k) = binding_named(set.values[1])->0;
            bind_outcome(get, bind_outcome(set, m, entries_before).0, entries_after).1 == info(
                chord_label(mods, key_name_of(k)) + " = "@ + spec_raw_rest(set, 2),
            )
        }),
{
    reveal_strlit("set");
    reveal_strlit("get");
    reveal_strlit("list");
    reveal_strlit("remove");
    assert("set"@ != "list"@) by {
        assert("set"@.len() != "list"@.len());
    }
    assert("set"@ != "get"@) by {
        assert("set"@[0] != "get"@[0]);
    }
    assert("get"@ != "list"@) by {
        assert("get"@.len() != "list"@.len());
    }
    assert("get"@ != "set"@) by {
        assert("get"@[0] != "set"@[0]);
    }
    let (mods, k) = binding_named(set.values[1])->0;
    let m2 = bind_outcome(set, m, entries_before).0;
    assert(m2 == m.insert(chord_code(mods, k), spec_raw_rest(set, 2)));
    assert(m2.contains_key(chord_code(mods, k)));
}

/// A removed binding is gone: after `bind remove <key>` with a known key,
/// `bind get` of a key naming the same chord reports that nothing is bound.
pub proof fn law_bind_remove_then_get(
    remove: ArgsView,
    get: ArgsView,
    m: Map<u64, Seq<char>>,
    entries_before: Seq<(u64, Seq<char>)>,
    entries_after: Seq<(u64, Seq<char>)>,
)
    requires
        remove.values.len() == 2,
        lower_seq(remove.values[0]) == "remove"@,
        binding_named(remove.values[1]) is Some,
        get.values.len() == 2,
        lower_seq(get.values[0]) == "get"@,
        binding_named(get.values[1]) == binding_named(remove.values[1]),
    ensures
        ({
            let (mods, k) = binding_named(remove.values[1])->0;
            bind_outcome(get, bind_outcome(remove, m, entries_before).0, entries_after).1 == error(
                "No binding for "@ + chord_label(mods, key_name_of(k)),
            )
        }),
{
    reveal_strlit("set");
    reveal_strlit("get");
    reveal_strlit("list");
    reveal_strlit("remove");
    assert("remove"@ != "list"@) by {
        assert("remove"@.len() != "list"@.len());
    }
    assert("remove"@ != "get"@) by {
        assert("remove"@[0] != "get"@[0]);
    }
    assert("remove"@ != "set"@) by {
        assert("remove"@[0] != "set"@[0]);
    }
    assert("get"@ != "list"@) by {
        assert("get"@.len() != "list"@.len());
    }
    assert("get"@ != "set"@) by {
        assert("get"@[0] != "set"@[0]);
    }
    let (mods, k) = binding_named(remove.values[1])->0;
    let m2 = bind_outcome(remove, m, entries_before).0;
    assert(!m2.contains_key(chord_code(mods, k)));
}

/// `bind set <key> ` completes a command: after `set` (in any ASCII case) the
/// completer offers, at the command argument, exactly the candidates that
/// command position offers (which command position then ranks against its
/// fragment); at the key argument it offers nothing.
pub proof fn law_bind_set_completes_commands(
    r: RequestView,
    defs: Seq<CommandDef>,
    entries: Seq<(Seq<char>, Seq<char>)>,
    p: ParsedInputView,
)
    ensures
        r.argument_index == 1 ==> bind_completions(r, defs, entries).len() == 0,
        r.argument_index == 2 && r.parsed.tokens.len() > 1 && eq_ignore_case(r.parsed.tokens[1].value, "set"@)
            && spec_active_argument(p) is None ==> completion_plan(defs, entries, p) == PlanView::Ready(
            rank_completions(
                bind_completions(r, defs, entries),
                spec_active_fragment(p),
                spec_replacement(p).0,
                spec_replacement(p).1,
            ),
        ),
{
}

/// `help <name>` shows a command's long help: for a command whose long help
/// is not empty and differs from its usage, the reply is the usage line, the
/// long help on the next line, and then the aliases line when it has
/// aliases.
pub proof fn law_help_shows_long_help(a: ArgsView, defs: Seq<CommandDef>, i: int)
    requires
        a.values.len() > 0,
        resolve(defs, a.values[0]) == Some(i),
        defs[i].spec.long_help is Some,
        (defs[i].spec.long_help->0)@.len() > 0,
        (defs[i].spec.long_help->0)@ != defs[i].spec.usage@,
    ensures
        ({
            let d = defs[i];
            let h = (d.spec.long_help->0)@;
            let head = d.spec.usage@ + "\n"@ + h;
            help_output(a, defs) == info(
                if d.spec.aliases@.len() == 0 {
                    head
                } else {
                    head + "\n"@ + "Aliases: "@ + join_with(alias_views(d.spec), ", "@)
                },
            )
        }),
{
    let d = defs[i];
    let h = (d.spec.long_help->0)@;
    let l1 = seq![d.spec.usage@];
    let l2 = l1.push(h);
    assert(l2.drop_last() =~= l1);
    assert(join_with(l1, "\n"@) == d.spec.usage@);
    assert(join_with(l2, "\n"@) == d.spec.usage@ + "\n"@ + h);
    if d.spec.aliases@.len() > 0 {
        let l3 = l2.push("Aliases: "@ + join_with(alias_views(d.spec), ", "@));
        assert(l3.drop_last() =~= l2);
        assert(join_with(l3, "\n"@) == join_with(l2, "\n"@) + "\n"@ + ("Aliases: "@ + join_with(
            alias_views(d.spec),
            ", "@,
        )));
        assert(join_with(l3, "\n"@) =~= d.spec.usage@ + "\n"@ + h + "\n"@ + "Aliases: "@ + join_with(
            alias_views(d.spec),
            ", "@,
        ));
    }
}

} // verus!
