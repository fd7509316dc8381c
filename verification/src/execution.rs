//! Running queued command requests: parsing, alias expansion, the echo line
//! and its link to command recall, and writing a command's output.
//!
//! Running a command's executor is the application's part. A step is split
//! in two: [`begin_execution`] does everything up to that call and says which
//! executor to run; [`finish_execution`] writes what it returned.

use crate::aliases::ConsoleAliases;
use crate::args::{byte_slice, parsed_arguments, parsed_raw_tails, Args, ArgsView};
use crate::buffer::{pushed, BufferView, ConsoleBuffer, ConsoleLevel, ConsoleLineSource, LineSourceView};
use crate::model::{
    CommandOrigin, ConsoleCommandExecuted, ConsoleCommandQueue, ConsoleRequest, QueuedView,
};
use crate::parser::{spec_parse_at, ParsedInput, ParsedInputView};
use crate::registry::{resolve, CommandDef, ConsoleRegistry};
use crate::state::{ConsoleState, StateView};
use crate::text::{cat, chars_of, copy_str, lower_seq, string_from_chars, utf8_len};
use vstd::prelude::*;

verus! {

broadcast use vstd::string::group_string_axioms;

/// How deep runtime aliases may expand into one another.
pub const ALIAS_EXPANSION_LIMIT: u8 = 16;

/// The model of a [`ConsoleCommandExecuted`].
pub struct ExecutedView {
    pub input: Seq<char>,
    pub command: Option<Seq<char>>,
    pub origin: CommandOrigin,
    pub succeeded: bool,
}

/// The model of a notification.
pub open spec fn executed_view(e: ConsoleCommandExecuted) -> ExecutedView {
    ExecutedView {
        input: e.input@,
        command: match e.command {
            Some(c) => Some(c@),
            None => None,
        },
        origin: e.origin,
        succeeded: e.succeeded,
    }
}

/// What one execution step did.
pub enum ExecutionStep {
    /// Nothing ran: the queue was empty or the request held no command.
    Idle,
    /// The request ended without running a command; notify with this.
    Finished(ConsoleCommandExecuted),
    /// A runtime alias was expanded in place of the request.
    Expanded,
    /// Run `executor` with `args`, then pass its output to [`finish_execution`].
    Run { executor: u64, args: Args, command: String, input: String, origin: CommandOrigin },
}

/// The model of an [`ExecutionStep`].
pub enum StepView {
    Idle,
    Finished(ExecutedView),
    Expanded,
    Run {
        executor: u64,
        args: ArgsView,
        command: Seq<char>,
        input: Seq<char>,
        origin: CommandOrigin,
    },
}

impl View for ExecutionStep {
    type V = StepView;

    open spec fn view(&self) -> StepView {
        match self {
            ExecutionStep::Idle => StepView::Idle,
            ExecutionStep::Finished(e) => StepView::Finished(executed_view(*e)),
            ExecutionStep::Expanded => StepView::Expanded,
            ExecutionStep::Run { executor, args, command, input, origin } => StepView::Run {
                executor: *executor,
                args: args@,
                command: command@,
                input: input@,
                origin: *origin,
            },
        }
    }
}

/// The recall entry awaiting its echo, if it names `input`.
pub open spec fn pending_for(s: StateView, input: Seq<char>) -> Option<usize> {
    match s.pending {
        Some(i) => if i < s.history.len() && s.history[i as int] == input {
            Some(i)
        } else {
            None
        },
        None => None,
    }
}

/// The recall entry to link: the one the request carries, else the pending
/// one when it names `input`, which is then no longer pending.
pub open spec fn link_target(s: StateView, input: Seq<char>, carried: Option<usize>) -> (StateView, Option<usize>) {
    match carried {
        Some(i) => (s, Some(i)),
        None => match pending_for(s, input) {
            Some(i) => (StateView { pending: None, ..s }, Some(i)),
            None => (s, None),
        },
    }
}

/// The echo of `input` for command `name`, linked to its recall entry.
pub open spec fn echoed(
    s: StateView,
    b: BufferView,
    input: Seq<char>,
    name: Seq<char>,
    carried: Option<usize>,
) -> (StateView, BufferView) {
    let b1 = pushed(b, ConsoleLevel::Info, LineSourceView::CommandEcho { name }, "> "@ + input);
    let (s1, target) = link_target(s, input, carried);
    let s2 = match target {
        Some(i) => if b1.lines.len() > 0 && i < s1.line_ids.len() {
            StateView { line_ids: s1.line_ids.update(i as int, Some(b1.lines.last().id)), ..s1 }
        } else {
            s1
        },
        None => s1,
    };
    (s2, b1)
}

/// One execution step on the request at the front of `q`: the queue, state
/// and buffer afterwards, and what the application must do next.
pub open spec fn execution_step(
    q: Seq<QueuedView>,
    s: StateView,
    b: BufferView,
    defs: Seq<CommandDef>,
    aliases: Map<Seq<char>, Seq<char>>,
) -> (Seq<QueuedView>, StateView, BufferView, StepView) {
    if q.len() == 0 {
        (q, s, b, StepView::Idle)
    } else {
        let head = q[0];
        let rest = q.skip(1);
        let input = head.input;
        let p = spec_parse_at(input, utf8_len(input) as int);
        let failed = |c: Option<Seq<char>>|
            StepView::Finished(
                ExecutedView { input, command: c, origin: head.origin, succeeded: false },
            );
        match p.error {
            Some(e) => (
                rest,
                s,
                pushed(b, ConsoleLevel::Error, LineSourceView::System, "Parse error: "@ + e.message),
                failed(None),
            ),
            None => if p.tokens.len() == 0 {
                (rest, s, b, StepView::Idle)
            } else {
                let name = p.tokens[0].value;
                match resolve(defs, name) {
                    Some(i) => {
                        let command = defs[i].spec.name@;
                        let (s2, b2) = echoed(s, b, input, command, head.history_index);
                        (
                            rest,
                            s2,
                            b2,
                            StepView::Run {
                                executor: defs[i].executor,
                                args: ArgsView {
                                    values: parsed_arguments(p),
                                    raw_tails: Some(parsed_raw_tails(p)),
                                },
                                command,
                                input,
                                origin: head.origin,
                            },
                        )
                    },
                    None => if aliases.contains_key(lower_seq(name)) {
                        if head.alias_depth >= ALIAS_EXPANSION_LIMIT {
                            (
                                rest,
                                s,
                                pushed(
                                    b,
                                    ConsoleLevel::Error,
                                    LineSourceView::System,
                                    "Alias expansion limit exceeded while resolving `"@ + name
                                        + "`"@,
                                ),
                                failed(Some(name)),
                            )
                        } else {
                            let (s1, target) = link_target(s, input, head.history_index);
                            let expanded = aliases[lower_seq(name)] + byte_slice(
                                input,
                                p.tokens[0].end as int,
                                utf8_len(input) as int,
                            );
                            (
                                seq![
                                    QueuedView {
                                        input: expanded,
                                        origin: head.origin,
                                        alias_depth: (head.alias_depth + 1) as u8,
                                        history_index: target,
                                    },
                                ] + rest,
                                s1,
                                b,
                                StepView::Expanded,
                            )
                        }
                    } else {
                        let (s2, b2) = echoed(s, b, input, name, head.history_index);
                        (
                            rest,
                            s2,
                            pushed(
                                b2,
                                ConsoleLevel::Error,
                                LineSourceView::System,
                                "Unknown command: "@ + name,
                            ),
                            failed(Some(name)),
                        )
                    },
                }
            },
        }
    }
}

/// The text of `s` from byte offset `b` to its end.
fn text_after_byte(s: &str, b: usize) -> (r: String)
    ensures
        r@ == byte_slice(s@, b as int, utf8_len(s@) as int),
{
    let cs = chars_of(s);
    let st = s.as_bytes().len();
    proof {
        crate::text::lemma_str_len(s);
        assert(s@.take(s@.len() as int) =~= s@);
    }
    let i = crate::args::char_index_of(&cs, b);
    let j = crate::args::char_index_of(&cs, st);
    if i <= j {
        string_from_chars(&cs.as_slice()[i..j])
    } else {
        String::new()
    }
}

/// Writes the echo of `input` for command `name` and links it to its recall
/// entry (see [`echoed`]).
fn echo_command(
    state: &mut ConsoleState,
    buffer: &mut ConsoleBuffer,
    input: &str,
    name: &str,
    carried: Option<usize>,
)
    ensures
        (final(state)@, final(buffer)@) == echoed(old(state)@, old(buffer)@, input@, name@, carried),
{
    let text = cat("> ", input);
    buffer.push(ConsoleLevel::Info, ConsoleLineSource::CommandEcho { name: copy_str(name) }, text.as_str());
    let target = match carried {
        Some(i) => Some(i),
        None => state.take_pending_history_index(input),
    };
    if let Some(i) = target {
        if let Some(line) = buffer.last_line() {
            state.set_history_line_id(i, line.id);
        }
    }
}

/// Takes the request at the front of the queue and carries it as far as
/// running its command (see [`execution_step`]).
pub fn begin_execution(
    queue: &mut ConsoleCommandQueue,
    state: &mut ConsoleState,
    buffer: &mut ConsoleBuffer,
    registry: &ConsoleRegistry,
    aliases: &ConsoleAliases,
) -> (r: ExecutionStep)
    ensures
        (final(queue)@, final(state)@, final(buffer)@, r@) == execution_step(
            old(queue)@,
            old(state)@,
            old(buffer)@,
            registry.defs(),
            aliases@,
        ),
{
    let queued = match queue.pop_front() {
        Some(q) => q,
        None => {
            return ExecutionStep::Idle;
        },
    };
    let history_index = queued.history_index;
    let alias_depth = queued.alias_depth;
    let input = queued.request.input;
    let origin = queued.request.origin;
    let in_str = input.as_str();
    let parsed = ParsedInput::parse(in_str);
    proof {
        crate::text::lemma_str_len(in_str);
        assert(in_str@.take(in_str@.len() as int) =~= in_str@);
    }
    if let Some(error) = &parsed.error {
        let text = cat("Parse error: ", error.message);
        buffer.push(ConsoleLevel::Error, ConsoleLineSource::System, text.as_str());
        return ExecutionStep::Finished(
            ConsoleCommandExecuted { input, command: None, origin, succeeded: false },
        );
    }
    let name = match parsed.command() {
        Some(n) => copy_str(n),
        None => {
            return ExecutionStep::Idle;
        },
    };
    match registry.get(name.as_str()) {
        Some(def) => {
            let command = def.spec.name.clone();
            let executor = def.executor;
            let args = Args::from_parsed(&parsed);
            echo_command(state, buffer, input.as_str(), command.as_str(), history_index);
            ExecutionStep::Run { executor, args, command, input, origin }
        },
        None => match aliases.get(name.as_str()) {
            Some(expansion) => {
                if alias_depth >= ALIAS_EXPANSION_LIMIT {
                    let text = cat("Alias expansion limit exceeded while resolving `", name.as_str());
                    let text = cat(text.as_str(), "`");
                    buffer.push(ConsoleLevel::Error, ConsoleLineSource::System, text.as_str());
                    ExecutionStep::Finished(
                        ConsoleCommandExecuted {
                            input,
                            command: Some(name),
                            origin,
                            succeeded: false,
                        },
                    )
                } else {
                    let suffix = text_after_byte(input.as_str(), parsed.tokens[0].range.end);
                    let target = match history_index {
                        Some(i) => Some(i),
                        None => state.take_pending_history_index(input.as_str()),
                    };
                    let expanded = cat(expansion, suffix.as_str());
                    queue.push_alias_expansion(
                        ConsoleRequest { input: expanded, origin },
                        alias_depth + 1,
                        target,
                    );
                    ExecutionStep::Expanded
                }
            },
            None => {
                echo_command(state, buffer, input.as_str(), name.as_str(), history_index);
                let text = cat("Unknown command: ", name.as_str());
                buffer.push(ConsoleLevel::Error, ConsoleLineSource::System, text.as_str());
                ExecutionStep::Finished(
                    ConsoleCommandExecuted { input, command: Some(name), origin, succeeded: false },
                )
            },
        },
    }
}

/// The buffer after writing each of `lines`, in order, from `source`.
pub open spec fn pushed_all(
    b: BufferView,
    lines: Seq<(ConsoleLevel, Seq<char>)>,
    source: LineSourceView,
) -> BufferView
    decreases lines.len(),
{
    if lines.len() == 0 {
        b
    } else {
        let prev = pushed_all(b, lines.drop_last(), source);
        pushed(prev, lines.last().0, source, lines.last().1)
    }
}

/// A command succeeded when none of its output lines is an error.
pub open spec fn output_succeeded(lines: Seq<(ConsoleLevel, Seq<char>)>) -> bool {
    forall|k: int| 0 <= k < lines.len() ==> (#[trigger] lines[k]).0 != ConsoleLevel::Error
}

/// Writes the output of command `command`, run for `input`, and returns the
/// notification: it succeeded when no line is an error.
pub fn finish_execution(
    buffer: &mut ConsoleBuffer,
    lines: Vec<(ConsoleLevel, String)>,
    command: String,
    input: String,
    origin: CommandOrigin,
) -> (r: ConsoleCommandExecuted)
    ensures
        final(buffer)@ == pushed_all(
            old(buffer)@,
            lines@.map_values(|l: (ConsoleLevel, String)| (l.0, l.1@)),
            LineSourceView::Command { name: command@ },
        ),
        executed_view(r) == (ExecutedView {
            input: input@,
            command: Some(command@),
            origin,
            succeeded: output_succeeded(lines@.map_values(|l: (ConsoleLevel, String)| (l.0, l.1@))),
        }),
{
    let ghost lv = lines@.map_values(|l: (ConsoleLevel, String)| (l.0, l.1@));
    let ghost source = LineSourceView::Command { name: command@ };
    let ghost start = buffer@;
    let mut succeeded = true;
    let mut i: usize = 0;
    assert(lv.take(0) =~= Seq::<(ConsoleLevel, Seq<char>)>::empty());
    while i < lines.len()
        invariant
            0 <= i <= lines@.len(),
            lv == lines@.map_values(|l: (ConsoleLevel, String)| (l.0, l.1@)),
            source == (LineSourceView::Command { name: command@ }),
            buffer@ == pushed_all(start, lv.take(i as int), source),
            succeeded == output_succeeded(lv.take(i as int)),
        decreases lines@.len() - i,
    {
        let level = lines[i].0;
        if level == ConsoleLevel::Error {
            succeeded = false;
        }
        buffer.push(level, ConsoleLineSource::Command { name: command.clone() }, lines[i].1.as_str());
        assert(lv.take(i + 1).drop_last() =~= lv.take(i as int));
        assert(lv.take(i + 1).last() == lv[i as int]);
        assert(output_succeeded(lv.take(i + 1)) == (output_succeeded(lv.take(i as int)) && lv[i as int].0
            != ConsoleLevel::Error)) by {
            if lv[i as int].0 == ConsoleLevel::Error {
                assert(lv.take(i + 1)[i as int].0 == ConsoleLevel::Error);
            }
        }
        i = i + 1;
    }
    assert(lv.take(lines@.len() as int) =~= lv);
    ConsoleCommandExecuted { input, command: Some(command), origin, succeeded }
}

/// Alias expansion cannot loop forever: an expansion replaces the request at
/// the front of the queue with one exactly one level deeper, never deeper than
/// the limit, and leaves the rest of the queue alone; a request already at
/// the limit fails instead.
pub proof fn law_alias_expansion_bounded(
    q: Seq<QueuedView>,
    s: StateView,
    b: BufferView,
    defs: Seq<CommandDef>,
    aliases: Map<Seq<char>, Seq<char>>,
)
    ensures
        ({
            let (q2, _, _, step) = execution_step(q, s, b, defs, aliases);
            &&& step is Expanded ==> (q.len() > 0 && q2.len() == q.len() && q2[0].alias_depth
                == q[0].alias_depth + 1 && q2[0].alias_depth <= ALIAS_EXPANSION_LIMIT && q2.skip(1)
                == q.skip(1))
            &&& (q.len() > 0 && q[0].alias_depth >= ALIAS_EXPANSION_LIMIT) ==> !(step is Expanded)
        }),
{
    let (q2, _, _, step) = execution_step(q, s, b, defs, aliases);
    if step is Expanded {
        assert(q2.skip(1) =~= q.skip(1));
    }
}

} // verus!
