//! Command metadata, requests, the command queue and completion items.

use crate::parser::{
    copy_range, spec_active_fragment, spec_replacement, ParsedInput, ParsedInputView,
};
use crate::text::copy_str;
use std::collections::VecDeque;
use std::ops::Range;
use vstd::prelude::*;

verus! {

broadcast use vstd::string::group_string_axioms;

/// Describes the expected shape of an argument for help and completion.
#[derive(Debug, Clone, Copy, PartialEq, Eq, Structural)]
pub enum ArgumentKind {
    String,
    Boolean,
    /// One of the values supplied on [`ArgumentSpec`].
    Choice,
}

impl Default for ArgumentKind {
    fn default() -> (r: Self)
        ensures
            r == ArgumentKind::String,
    {
        ArgumentKind::String
    }
}

/// Metadata for one command argument.
#[derive(Debug, Clone, PartialEq, Eq)]
pub struct ArgumentSpec {
    pub name: &'static str,
    pub help: &'static str,
    pub kind: ArgumentKind,
    pub choices: Vec<&'static str>,
}

impl ArgumentSpec {
    /// A free-form string argument with no help text.
    pub fn new(name: &'static str) -> (r: Self)
        ensures
            r.name == name,
            r.help@.len() == 0,
            r.kind == ArgumentKind::String,
            r.choices@.len() == 0,
    {
        proof {
            reveal_strlit("");
        }
        ArgumentSpec { name, help: "", kind: ArgumentKind::String, choices: Vec::new() }
    }

    /// Sets the help text.
    pub fn help(self, help: &'static str) -> (r: Self)
        ensures
            r == (ArgumentSpec { help, ..self }),
    {
        ArgumentSpec { help, ..self }
    }

    /// Sets the kind.
    pub fn kind(self, kind: ArgumentKind) -> (r: Self)
        ensures
            r == (ArgumentSpec { kind, ..self }),
    {
        ArgumentSpec { kind, ..self }
    }

    /// Makes this a choice among `choices`.
    pub fn choices(self, choices: &[&'static str]) -> (r: Self)
        ensures
            r.name == self.name,
            r.help == self.help,
            r.kind == ArgumentKind::Choice,
            r.choices@ == choices@,
    {
        let mut v: Vec<&'static str> = Vec::new();
        let mut i: usize = 0;
        while i < choices.len()
            invariant
                0 <= i <= choices@.len(),
                v@ == choices@.take(i as int),
            decreases choices@.len() - i,
        {
            v.push(choices[i]);
            assert(v@ =~= choices@.take(i + 1));
            i = i + 1;
        }
        assert(v@ =~= choices@);
        ArgumentSpec { name: self.name, help: self.help, kind: ArgumentKind::Choice, choices: v }
    }
}

/// Structured metadata kept by the registry for a registered command.
#[derive(Debug, Clone, PartialEq, Eq)]
pub struct CommandSpec {
    pub name: String,
    pub usage: &'static str,
    pub summary: &'static str,
    pub long_help: Option<&'static str>,
    pub aliases: Vec<&'static str>,
    pub args: Vec<ArgumentSpec>,
    pub hidden: bool,
}

impl CommandSpec {
    /// A visible command with its usage line as summary, no aliases, and no
    /// argument metadata.
    pub fn new(name: &str, usage: &'static str) -> (r: Self)
        ensures
            r.name@ == name@,
            r.usage == usage,
            r.summary == usage,
            r.long_help is None,
            r.aliases@.len() == 0,
            r.args@.len() == 0,
            !r.hidden,
    {
        CommandSpec {
            name: copy_str(name),
            usage,
            summary: usage,
            long_help: None,
            aliases: Vec::new(),
            args: Vec::new(),
            hidden: false,
        }
    }

    /// Sets the short description shown alongside command completion.
    pub fn with_summary(self, summary: &'static str) -> (r: Self)
        ensures
            r == (CommandSpec { summary, ..self }),
    {
        CommandSpec { summary, ..self }
    }

    /// Sets extended text displayed by the built-in help command.
    pub fn with_long_help(self, help: &'static str) -> (r: Self)
        ensures
            r == (CommandSpec { long_help: Some(help), ..self }),
    {
        CommandSpec { long_help: Some(help), ..self }
    }

    /// Adds an alternate name.
    pub fn with_alias(self, alias: &'static str) -> (r: Self)
        ensures
            r.aliases@ == self.aliases@.push(alias),
            r.name == self.name,
            r.usage == self.usage,
            r.summary == self.summary,
            r.long_help == self.long_help,
            r.args == self.args,
            r.hidden == self.hidden,
    {
        let mut s = self;
        s.aliases.push(alias);
        s
    }

    /// Sets structured metadata for the command arguments.
    pub fn with_args(self, args: Vec<ArgumentSpec>) -> (r: Self)
        ensures
            r == (CommandSpec { args, ..self }),
    {
        CommandSpec { args, ..self }
    }

    /// Hides this command from command completion and the command list.
    pub fn hidden(self) -> (r: Self)
        ensures
            r == (CommandSpec { hidden: true, ..self }),
    {
        CommandSpec { hidden: true, ..self }
    }
}

/// The source that requested a command.
#[derive(Debug, Clone, Copy, PartialEq, Eq, Structural)]
pub enum CommandOrigin {
    LocalUi,
    Application,
}

impl Default for CommandOrigin {
    fn default() -> (r: Self)
        ensures
            r == CommandOrigin::LocalUi,
    {
        CommandOrigin::LocalUi
    }
}

/// A command queued by the console UI or game code.
#[derive(Debug, Clone, PartialEq, Eq)]
pub struct ConsoleRequest {
    pub input: String,
    pub origin: CommandOrigin,
}

impl ConsoleRequest {
    /// A request from the application.
    pub fn new(input: &str) -> (r: Self)
        ensures
            r.input@ == input@,
            r.origin == CommandOrigin::Application,
    {
        ConsoleRequest { input: copy_str(input), origin: CommandOrigin::Application }
    }
}

/// A queued request with its alias-expansion depth and the command-recall
/// entry whose echo line it should be linked to.
#[derive(Debug)]
pub struct QueuedConsoleRequest {
    pub request: ConsoleRequest,
    pub alias_depth: u8,
    pub history_index: Option<usize>,
}

/// The model of a queued request.
pub struct QueuedView {
    pub input: Seq<char>,
    pub origin: CommandOrigin,
    pub alias_depth: u8,
    pub history_index: Option<usize>,
}

impl View for QueuedConsoleRequest {
    type V = QueuedView;

    open spec fn view(&self) -> QueuedView {
        QueuedView {
            input: self.request.input@,
            origin: self.request.origin,
            alias_depth: self.alias_depth,
            history_index: self.history_index,
        }
    }
}

/// FIFO queue shared by local input and programmatic requests. Alias
/// expansions go to the front, so they run before anything queued later.
#[derive(Debug)]
pub struct ConsoleCommandQueue {
    requests: VecDeque<QueuedConsoleRequest>,
}

impl View for ConsoleCommandQueue {
    type V = Seq<QueuedView>;

    closed spec fn view(&self) -> Seq<QueuedView> {
        self.requests@.map_values(|q: QueuedConsoleRequest| q@)
    }
}

impl ConsoleCommandQueue {
    /// An empty queue.
    pub fn new() -> (r: Self)
        ensures
            r@.len() == 0,
    {
        let r = ConsoleCommandQueue { requests: VecDeque::new() };
        assert(r@ =~= Seq::<QueuedView>::empty());
        r
    }

    /// Adds a request at the back.
    pub fn push(&mut self, request: ConsoleRequest)
        ensures
            final(self)@ == old(self)@.push(
                QueuedView {
                    input: request.input@,
                    origin: request.origin,
                    alias_depth: 0,
                    history_index: None,
                },
            ),
    {
        let q = QueuedConsoleRequest { request, alias_depth: 0, history_index: None };
        let ghost before = self@;
        self.requests.push_back(q);
        assert(self@ =~= before.push(q@));
    }

    pub fn is_empty(&self) -> (r: bool)
        ensures
            r == (self@.len() == 0),
    {
        self.requests.len() == 0
    }

    pub fn len(&self) -> (r: usize)
        ensures
            r == self@.len(),
    {
        self.requests.len()
    }

    /// Takes the request at the front.
    pub fn pop_front(&mut self) -> (r: Option<QueuedConsoleRequest>)
        ensures
            old(self)@.len() == 0 ==> r is None && final(self)@ == old(self)@,
            old(self)@.len() > 0 ==> (r matches Some(q) && q@ == old(self)@[0]) && final(self)@
                == old(self)@.skip(1),
    {
        let ghost before = self@;
        let r = self.requests.pop_front();
        assert(self@ =~= if before.len() > 0 {
            before.skip(1)
        } else {
            before
        });
        r
    }

    /// Queues the expansion of an alias ahead of every waiting request.
    pub fn push_alias_expansion(
        &mut self,
        request: ConsoleRequest,
        alias_depth: u8,
        history_index: Option<usize>,
    )
        ensures
            final(self)@ == seq![
                QueuedView {
                    input: request.input@,
                    origin: request.origin,
                    alias_depth,
                    history_index,
                },
            ] + old(self)@,
    {
        let q = QueuedConsoleRequest { request, alias_depth, history_index };
        let ghost before = self@;
        self.requests.push_front(q);
        assert(self@ =~= seq![q@] + before);
    }
}

impl Default for ConsoleCommandQueue {
    fn default() -> (r: Self)
        ensures
            r@.len() == 0,
    {
        ConsoleCommandQueue::new()
    }
}

/// Notification emitted after a command has been parsed and executed.
#[derive(Debug, Clone, PartialEq, Eq)]
pub struct ConsoleCommandExecuted {
    pub input: String,
    pub command: Option<String>,
    pub origin: CommandOrigin,
    pub succeeded: bool,
}

/// Input supplied to a command completer.
///
/// A request is only created while completing an argument of a registered
/// command, so [`Self::command`] and [`Self::argument_index`] are always
/// available. The parser result remains public for advanced completion logic.
#[derive(Debug, PartialEq, Eq)]
pub struct CompletionRequest {
    pub parsed: ParsedInput,
    command: String,
    argument_index: usize,
}

/// The model of a [`CompletionRequest`].
pub struct RequestView {
    pub parsed: ParsedInputView,
    pub command: Seq<char>,
    pub argument_index: nat,
}

impl View for CompletionRequest {
    type V = RequestView;

    closed spec fn view(&self) -> RequestView {
        RequestView {
            parsed: self.parsed@,
            command: self.command@,
            argument_index: self.argument_index as nat,
        }
    }
}

impl CompletionRequest {
    /// A request to complete argument `argument_index` of `command`.
    pub fn new(parsed: ParsedInput, command: &str, argument_index: usize) -> (r: Self)
        ensures
            r@ == (RequestView { parsed: parsed@, command: command@, argument_index: argument_index as nat }),
    {
        CompletionRequest { parsed, command: copy_str(command), argument_index }
    }

    /// The command being completed, as written in the input.
    pub fn command(&self) -> (r: &str)
        ensures
            r@ == self@.command,
    {
        self.command.as_str()
    }

    /// The zero-based index of the argument being completed.
    pub fn argument_index(&self) -> (r: usize)
        ensures
            r == self@.argument_index,
    {
        self.argument_index
    }

    /// Returns a decoded argument value by zero-based index.
    pub fn argument(&self, index: usize) -> (r: Option<&str>)
        ensures
            index + 1 < self@.parsed.tokens.len() ==> (r matches Some(s) && s@
                == self@.parsed.tokens[index + 1].value),
            index + 1 >= self@.parsed.tokens.len() ==> r is None,
    {
        let n = self.parsed.tokens.len();
        if n > 0 && index < n - 1 {
            assert(self@.parsed.tokens[index + 1] == self.parsed.tokens@[index + 1]@);
            Some(self.parsed.tokens[index + 1].value.as_str())
        } else {
            None
        }
    }

    /// The decoded text of the argument currently being completed.
    pub fn active_fragment(&self) -> (r: &str)
        ensures
            r@ == spec_active_fragment(self@.parsed),
    {
        self.parsed.active_fragment()
    }

    /// The source range that completion should replace.
    pub fn replacement_range(&self) -> (r: Range<usize>)
        ensures
            (r.start as nat, r.end as nat) == spec_replacement(self@.parsed),
    {
        self.parsed.replacement_range()
    }
}

/// A completion candidate.
///
/// The default `insert_text` is quoted and escaped when accepted, if needed.
/// Use [`Self::insert_text`] when the completion intentionally inserts command
/// syntax rather than one argument value.
#[derive(Debug, PartialEq, Eq)]
pub struct CompletionItem {
    pub label: String,
    pub insert_text: String,
    pub detail: String,
    pub replace: Range<usize>,
    pub append_space: bool,
}

/// The model of a [`CompletionItem`].
pub struct ItemView {
    pub label: Seq<char>,
    pub insert_text: Seq<char>,
    pub detail: Seq<char>,
    pub replace_start: nat,
    pub replace_end: nat,
    pub append_space: bool,
}

impl View for CompletionItem {
    type V = ItemView;

    open spec fn view(&self) -> ItemView {
        ItemView {
            label: self.label@,
            insert_text: self.insert_text@,
            detail: self.detail@,
            replace_start: self.replace.start as nat,
            replace_end: self.replace.end as nat,
            append_space: self.append_space,
        }
    }
}

impl Clone for CompletionItem {
    fn clone(&self) -> (r: Self)
        ensures
            r@ == self@,
    {
        CompletionItem {
            label: self.label.clone(),
            insert_text: self.insert_text.clone(),
            detail: self.detail.clone(),
            replace: copy_range(&self.replace),
            append_space: self.append_space,
        }
    }
}

impl CompletionItem {
    /// A candidate with its display label and detail text. It inserts its
    /// label, replaces nothing yet, and appends a space when accepted.
    pub fn new(label: &str, detail: &str) -> (r: Self)
        ensures
            r@ == (ItemView {
                label: label@,
                insert_text: label@,
                detail: detail@,
                replace_start: 0,
                replace_end: 0,
                append_space: true,
            }),
    {
        CompletionItem {
            label: copy_str(label),
            insert_text: copy_str(label),
            detail: copy_str(detail),
            replace: Range { start: 0, end: 0 },
            append_space: true,
        }
    }

    /// Sets text inserted in place of the candidate label.
    pub fn insert_text(self, text: &str) -> (r: Self)
        ensures
            r@ == (ItemView { insert_text: text@, ..self@ }),
    {
        CompletionItem { insert_text: copy_str(text), ..self }
    }

    /// Controls whether accepting this candidate appends a space.
    pub fn append_space(self, append_space: bool) -> (r: Self)
        ensures
            r@ == (ItemView { append_space, ..self@ }),
    {
        CompletionItem { append_space, ..self }
    }

    /// Sets the source range the candidate replaces.
    pub fn with_replace(self, replace: Range<usize>) -> (r: Self)
        ensures
            r@ == (ItemView {
                replace_start: replace.start as nat,
                replace_end: replace.end as nat,
                ..self@
            }),
    {
        CompletionItem { replace, ..self }
    }

    /// Sets the source range the candidate replaces.
    pub fn set_replace(&mut self, replace: Range<usize>)
        ensures
            final(self)@ == (ItemView {
                replace_start: replace.start as nat,
                replace_end: replace.end as nat,
                ..old(self)@
            }),
    {
        self.replace = replace;
    }
}

impl CompletionItem {
    /// A candidate with a label and no detail text.
    pub fn from_label(label: &str) -> (r: Self)
        ensures
            r@ == (ItemView {
                label: label@,
                insert_text: label@,
                detail: Seq::empty(),
                replace_start: 0,
                replace_end: 0,
                append_space: true,
            }),
    {
        proof {
            reveal_strlit("");
        }
        assert(""@ =~= Seq::<char>::empty());
        CompletionItem::new(label, "")
    }
}

/// A label alone becomes a candidate; [`CompletionItem::from_label`] states
/// this.
impl From<&str> for CompletionItem {
    fn from(label: &str) -> (r: Self) {
        CompletionItem::from_label(label)
    }
}

impl vstd::std_specs::convert::FromSpecImpl<&str> for CompletionItem {
    /// Strings cannot be built in a specification; `from_label` describes the
    /// conversion instead.
    open spec fn obeys_from_spec() -> bool {
        false
    }

    open spec fn from_spec(label: &str) -> CompletionItem {
        vstd::pervasive::arbitrary()
    }
}

/// A label alone becomes a candidate; [`CompletionItem::from_label`] states
/// this.
impl From<String> for CompletionItem {
    fn from(label: String) -> (r: Self) {
        CompletionItem::from_label(label.as_str())
    }
}

impl vstd::std_specs::convert::FromSpecImpl<String> for CompletionItem {
    /// Strings cannot be built in a specification; `from_label` describes the
    /// conversion instead.
    open spec fn obeys_from_spec() -> bool {
        false
    }

    open spec fn from_spec(label: String) -> CompletionItem {
        vstd::pervasive::arbitrary()
    }
}

} // verus!
