//! Keyboard handling for the open console: what each key press does to the
//! console state, the command queue and the text widget.

use crate::model::{CommandOrigin, ConsoleCommandQueue, ConsoleRequest, QueuedView};
use crate::state::{recalled, recorded, selected_edit, state_wf, ConsoleState, StateView};
use crate::text::byte_pos;
use crate::text::{eq_ignore_case, str_eq, str_eq_ignore_case, trim, trim_str, utf8_len};
use vstd::prelude::*;

verus! {

broadcast use vstd::string::group_string_axioms;

/// The logical meaning of a pressed key.
pub enum LogicalKey {
    Character(String),
    Enter,
    Tab,
    ArrowUp,
    ArrowDown,
    End,
    Escape,
    Other,
}

/// The model of a [`LogicalKey`].
pub enum LogicalKeyView {
    Character(Seq<char>),
    Enter,
    Tab,
    ArrowUp,
    ArrowDown,
    End,
    Escape,
    Other,
}

impl View for LogicalKey {
    type V = LogicalKeyView;

    open spec fn view(&self) -> LogicalKeyView {
        match self {
            LogicalKey::Character(c) => LogicalKeyView::Character(c@),
            LogicalKey::Enter => LogicalKeyView::Enter,
            LogicalKey::Tab => LogicalKeyView::Tab,
            LogicalKey::ArrowUp => LogicalKeyView::ArrowUp,
            LogicalKey::ArrowDown => LogicalKeyView::ArrowDown,
            LogicalKey::End => LogicalKeyView::End,
            LogicalKey::Escape => LogicalKeyView::Escape,
            LogicalKey::Other => LogicalKeyView::Other,
        }
    }
}

/// One key press seen while the console is open, with the modifier state at
/// that moment.
pub struct ConsoleKeyPress {
    pub logical_key: LogicalKey,
    /// The physical key is the console's toggle key.
    pub is_toggle_key: bool,
    /// The physical key is Backspace.
    pub is_backspace_key: bool,
    /// A Control key is held.
    pub control: bool,
    /// The platform shortcut modifier is held (Command on macOS, else Control).
    pub meta: bool,
    /// A Shift key is held.
    pub shift: bool,
    /// The text widget is composing input (an input method is active).
    pub composing: bool,
}

/// The settings that key handling reads.
pub struct InputSettings {
    pub max_command_history: usize,
    pub close_on_empty_submit: bool,
    /// The built-in `clear` command is registered.
    pub clear_enabled: bool,
}

/// What the text widget and the history panel must do after a key press.
pub struct KeyOutcome {
    /// Replace the widget's text and put its cursor at this byte offset.
    pub set_text: Option<(String, usize)>,
    /// Drop the widget's own pending vertical cursor moves.
    pub discard_vertical_moves: bool,
    /// Scroll the history panel to its newest line.
    pub reset_scroll: bool,
}

/// The model of a [`KeyOutcome`].
pub struct OutcomeView {
    pub set_text: Option<(Seq<char>, usize)>,
    pub discard_vertical_moves: bool,
    pub reset_scroll: bool,
}

impl View for KeyOutcome {
    type V = OutcomeView;

    open spec fn view(&self) -> OutcomeView {
        OutcomeView {
            set_text: match self.set_text {
                Some((t, c)) => Some((t@, c)),
                None => None,
            },
            discard_vertical_moves: self.discard_vertical_moves,
            reset_scroll: self.reset_scroll,
        }
    }
}

/// An outcome that asks nothing of the widget.
pub open spec fn no_outcome() -> OutcomeView {
    OutcomeView { set_text: None, discard_vertical_moves: false, reset_scroll: false }
}

/// An outcome that shows `text` with the cursor at its end.
pub open spec fn show_text(text: Seq<char>) -> OutcomeView {
    OutcomeView {
        set_text: Some((text, utf8_len(text) as usize)),
        discard_vertical_moves: false,
        reset_scroll: false,
    }
}

/// What a key press does, decided by the key alone.
pub enum KeyAction {
    Ignore,
    ClearLine,
    RecallSearch,
    ClearInput,
    ClearCommand,
    Submit,
    Tab,
    HistoryUp,
    HistoryDown,
    FollowOutput,
    Escape,
}

/// The action a key press selects (the first that applies).
pub open spec fn key_action(
    key: LogicalKeyView,
    is_toggle_key: bool,
    is_backspace_key: bool,
    control: bool,
    meta: bool,
    composing: bool,
    clear_enabled: bool,
) -> KeyAction {
    if is_toggle_key || composing {
        KeyAction::Ignore
    } else if meta && is_backspace_key {
        KeyAction::ClearLine
    } else {
        match key {
            LogicalKeyView::Character(c) => if control && eq_ignore_case(c, seq!['r']) {
                KeyAction::RecallSearch
            } else if control && eq_ignore_case(c, seq!['u']) {
                KeyAction::ClearInput
            } else if control && eq_ignore_case(c, seq!['l']) && clear_enabled {
                KeyAction::ClearCommand
            } else if c == seq!['\n'] || c == seq!['\r'] {
                KeyAction::Submit
            } else {
                KeyAction::Ignore
            },
            LogicalKeyView::Enter => KeyAction::Submit,
            LogicalKeyView::Tab => KeyAction::Tab,
            LogicalKeyView::ArrowUp => KeyAction::HistoryUp,
            LogicalKeyView::ArrowDown => KeyAction::HistoryDown,
            LogicalKeyView::End => if control {
                KeyAction::FollowOutput
            } else {
                KeyAction::Ignore
            },
            LogicalKeyView::Escape => KeyAction::Escape,
            LogicalKeyView::Other => KeyAction::Ignore,
        }
    }
}

/// The state with an empty input line.
pub open spec fn cleared_input(s: StateView) -> StateView {
    StateView { input: Seq::empty(), completion_cursor: None, dirty: true, ..s }
}

/// The state with no completion candidates.
pub open spec fn cleared_completions(s: StateView) -> StateView {
    StateView {
        items: Seq::empty(),
        overflow: 0,
        match_index: 0,
        completion_cursor: None,
        dirty: false,
        ..s
    }
}

/// The state with the previous candidate highlighted (wrapping).
pub open spec fn selected_previous(s: StateView) -> StateView {
    if s.items.len() == 0 {
        s
    } else {
        StateView {
            match_index: ((s.match_index + s.items.len() - 1) % (s.items.len() as int)) as usize,
            ..s
        }
    }
}

/// The state with the next candidate highlighted (wrapping).
pub open spec fn selected_next(s: StateView) -> StateView {
    if s.items.len() == 0 {
        s
    } else {
        StateView { match_index: ((s.match_index + 1) % (s.items.len() as int)) as usize, ..s }
    }
}

/// The newest entry before `end` that differs from `input`.
pub open spec fn previous_distinct(history: Seq<Seq<char>>, input: Seq<char>, end: int) -> Option<nat>
    decreases end,
{
    if end <= 0 || end > history.len() {
        None
    } else if history[end - 1] != input {
        Some((end - 1) as nat)
    } else {
        previous_distinct(history, input, end - 1)
    }
}

/// The oldest entry from `from` on that differs from `input`.
pub open spec fn next_distinct(history: Seq<Seq<char>>, input: Seq<char>, from: int) -> Option<nat>
    decreases history.len() - from,
{
    if from < 0 || from >= history.len() {
        None
    } else if history[from] != input {
        Some(from as nat)
    } else {
        next_distinct(history, input, from + 1)
    }
}

/// Up: move the highlight back while a later candidate is highlighted and
/// history is not being browsed; otherwise recall the next older command that
/// differs from the input, saving the input as the draft when browsing starts.
pub open spec fn history_up(s: StateView) -> (StateView, OutcomeView) {
    let discard = OutcomeView { discard_vertical_moves: true, ..no_outcome() };
    if s.history_index is None && s.items.len() > 0 && s.match_index > 0 {
        (selected_previous(s), discard)
    } else if s.history.len() == 0 {
        (s, discard)
    } else {
        let end = match s.history_index {
            Some(i) => i as int,
            None => s.history.len() as int,
        };
        match previous_distinct(s.history, s.input, end) {
            Some(idx) => {
                let value = s.history[idx as int];
                (
                    StateView {
                        draft: if s.history_index is None {
                            s.input
                        } else {
                            s.draft
                        },
                        history_index: Some(idx as usize),
                        input: value,
                        dirty: true,
                        ..s
                    },
                    OutcomeView { discard_vertical_moves: true, ..show_text(value) },
                )
            },
            None => (s, discard),
        }
    }
}

/// Down: move the highlight on when history is not being browsed and there
/// are candidates; while browsing, recall the next newer command that differs
/// from the input, or restore the draft after the newest.
pub open spec fn history_down(s: StateView) -> (StateView, OutcomeView) {
    let discard = OutcomeView { discard_vertical_moves: true, ..no_outcome() };
    if s.history_index is None && s.items.len() > 0 {
        (selected_next(s), discard)
    } else {
        match s.history_index {
            None => (s, discard),
            Some(i) => match next_distinct(s.history, s.input, i + 1) {
                Some(idx) => {
                    let value = s.history[idx as int];
                    (
                        StateView {
                            history_index: Some(idx as usize),
                            input: value,
                            dirty: true,
                            ..s
                        },
                        OutcomeView { discard_vertical_moves: true, ..show_text(value) },
                    )
                },
                None => (
                    StateView {
                        history_index: None,
                        input: s.draft,
                        dirty: true,
                        draft: Seq::empty(),
                        ..s
                    },
                    OutcomeView { discard_vertical_moves: true, ..show_text(s.draft) },
                ),
            },
        }
    }
}

/// Enter: the trimmed input is queued and recorded for recall when it is not
/// empty; an empty submission closes the console when so configured. The
/// input and candidates are cleared, browsing ends and the output follows.
pub open spec fn submitted(s: StateView, settings: InputSettings) -> StateView {
    let cmd = trim(s.input);
    let s1 = if cmd.len() > 0 {
        recorded(s, cmd, settings.max_command_history)
    } else if settings.close_on_empty_submit {
        StateView { open: false, ..s }
    } else {
        s
    };
    StateView {
        scroll_follow: true,
        history_index: None,
        draft: Seq::empty(),
        ..cleared_completions(cleared_input(s1))
    }
}

/// The queue after submitting `s`'s input.
pub open spec fn submitted_queue(s: StateView, q: Seq<QueuedView>) -> Seq<QueuedView> {
    let cmd = trim(s.input);
    if cmd.len() > 0 {
        q.push(
            QueuedView {
                input: cmd,
                origin: CommandOrigin::LocalUi,
                alias_depth: 0,
                history_index: None,
            },
        )
    } else {
        q
    }
}

/// The outcome of submitting: an empty widget and the newest output in view.
pub open spec fn submit_outcome() -> OutcomeView {
    OutcomeView { set_text: Some((Seq::empty(), 0)), discard_vertical_moves: false, reset_scroll: true }
}

/// The queued request of the `clear` shortcut.
pub open spec fn clear_request() -> QueuedView {
    QueuedView {
        input: seq!['c', 'l', 'e', 'a', 'r'],
        origin: CommandOrigin::LocalUi,
        alias_depth: 0,
        history_index: None,
    }
}

/// A byte-length-carrying copy of `s` with the cursor at its end.
fn text_at_end(s: &String) -> (r: (String, usize))
    ensures
        r.0@ == s@,
        r.1 == utf8_len(s@),
{
    let t = s.clone();
    let st = t.as_str();
    let n = st.as_bytes().len();
    proof {
        crate::text::lemma_str_len(st);
        assert(st@.take(st@.len() as int) =~= st@);
    }
    (t, n)
}

impl ConsoleState {
    /// The Up key (see [`history_up`]).
    pub fn history_up(&mut self) -> (r: KeyOutcome)
        requires
            state_wf(old(self)@),
        ensures
            (final(self)@, r@) == history_up(old(self)@),
            state_wf(final(self)@),
    {
        let ghost o = self@;
        if self.cmd_history_index.is_none() && self.completion_items.len() > 0 && self.match_index
            > 0 {
            self.select_previous_completion();
            return KeyOutcome { set_text: None, discard_vertical_moves: true, reset_scroll: false };
        }
        if self.cmd_history.len() == 0 {
            return KeyOutcome { set_text: None, discard_vertical_moves: true, reset_scroll: false };
        }
        let mut end = match self.cmd_history_index {
            Some(i) => i,
            None => self.cmd_history.len(),
        };
        let ghost e0 = end as int;
        while end > 0
            invariant
                self@ == o,
                o == old(self)@,
                state_wf(o),
                !(o.history_index is None && o.items.len() > 0 && o.match_index > 0),
                o.history.len() > 0,
                e0 == match o.history_index {
                    Some(i) => i as int,
                    None => o.history.len() as int,
                },
                end <= e0 <= o.history.len(),
                previous_distinct(o.history, o.input, e0) == previous_distinct(
                    o.history,
                    o.input,
                    end as int,
                ),
            decreases end,
        {
            if !str_eq(self.cmd_history[end - 1].as_str(), self.input.as_str()) {
                let idx = end - 1;
                if self.cmd_history_index.is_none() {
                    self.cmd_history_draft = self.input.clone();
                }
                self.cmd_history_index = Some(idx);
                let value = self.cmd_history[idx].clone();
                assert(value@ == o.history[idx as int]);
                assert(previous_distinct(o.history, o.input, end as int) == Some(idx as nat));
                let (shown, cursor) = text_at_end(&value);
                self.set_input(value);
                let r = KeyOutcome {
                    set_text: Some((shown, cursor)),
                    discard_vertical_moves: true,
                    reset_scroll: false,
                };
                return r;
            }
            end = end - 1;
        }
        KeyOutcome { set_text: None, discard_vertical_moves: true, reset_scroll: false }
    }

    /// The Down key (see [`history_down`]).
    pub fn history_down(&mut self) -> (r: KeyOutcome)
        requires
            state_wf(old(self)@),
        ensures
            (final(self)@, r@) == history_down(old(self)@),
            state_wf(final(self)@),
    {
        let ghost o = self@;
        if self.cmd_history_index.is_none() && self.completion_items.len() > 0 {
            self.select_next_completion();
            return KeyOutcome { set_text: None, discard_vertical_moves: true, reset_scroll: false };
        }
        let i = match self.cmd_history_index {
            None => {
                return KeyOutcome {
                    set_text: None,
                    discard_vertical_moves: true,
                    reset_scroll: false,
                };
            },
            Some(i) => i,
        };
        assert(i < self.cmd_history.len());
        let mut k = i + 1;
        while k < self.cmd_history.len()
            invariant
                self@ == o,
                o == old(self)@,
                state_wf(o),
                !(o.history_index is None && o.items.len() > 0),
                o.history_index == Some(i),
                i + 1 <= k <= o.history.len(),
                next_distinct(o.history, o.input, i + 1) == next_distinct(
                    o.history,
                    o.input,
                    k as int,
                ),
            decreases o.history.len() - k,
        {
            if !str_eq(self.cmd_history[k].as_str(), self.input.as_str()) {
                self.cmd_history_index = Some(k);
                let value = self.cmd_history[k].clone();
                assert(value@ == o.history[k as int]);
                assert(next_distinct(o.history, o.input, k as int) == Some(k as nat));
                let (shown, cursor) = text_at_end(&value);
                self.set_input(value);
                return KeyOutcome {
                    set_text: Some((shown, cursor)),
                    discard_vertical_moves: true,
                    reset_scroll: false,
                };
            }
            k = k + 1;
        }
        self.cmd_history_index = None;
        let value = self.cmd_history_draft.clone();
        let (shown, cursor) = text_at_end(&value);
        self.set_input(value);
        self.cmd_history_draft = String::new();
        KeyOutcome { set_text: Some((shown, cursor)), discard_vertical_moves: true, reset_scroll: false }
    }

    /// Enter (see [`submitted`] and [`submitted_queue`]).
    pub fn submit_input(&mut self, settings: &InputSettings, queue: &mut ConsoleCommandQueue) -> (r:
        KeyOutcome)
        requires
            state_wf(old(self)@),
        ensures
            final(self)@ == submitted(old(self)@, *settings),
            final(queue)@ == submitted_queue(old(self)@, old(queue)@),
            r@ == submit_outcome(),
            state_wf(final(self)@),
    {
        let cmd = trim_str(self.input.as_str());
        if !cmd.as_str().is_empty() {
            let queued = ConsoleRequest { input: cmd.clone(), origin: CommandOrigin::LocalUi };
            queue.push(queued);
            self.record_command(cmd, settings.max_command_history);
        } else if settings.close_on_empty_submit {
            self.open = false;
        }
        self.clear_input();
        self.clear_completions();
        self.scroll_follow = true;
        self.cmd_history_index = None;
        self.cmd_history_draft = String::new();
        KeyOutcome { set_text: Some((String::new(), 0)), discard_vertical_moves: false, reset_scroll: true }
    }
}

/// The outcome that empties the text widget.
pub open spec fn emptied() -> OutcomeView {
    OutcomeView { set_text: Some((Seq::empty(), 0)), discard_vertical_moves: false, reset_scroll: false }
}

/// Tab: with Shift and candidates shown, highlight the previous candidate;
/// otherwise accept the highlighted one, which ends history browsing.
pub open spec fn tab_pressed(s: StateView, shift: bool) -> (StateView, OutcomeView) {
    if shift && s.items.len() > 0 {
        (selected_previous(s), no_outcome())
    } else {
        match selected_edit(s) {
            Some((t, k)) => {
                let cursor = byte_pos(t, k) as usize;
                (
                    StateView {
                        input: t,
                        completion_cursor: Some(cursor),
                        dirty: true,
                        history_index: None,
                        draft: Seq::empty(),
                        ..s
                    },
                    OutcomeView { set_text: Some((t, cursor)), ..no_outcome() },
                )
            },
            None => (s, no_outcome()),
        }
    }
}

/// Escape: close the candidate list, or the console when there is none.
pub open spec fn escaped(s: StateView) -> StateView {
    if s.items.len() == 0 {
        StateView { open: false, ..s }
    } else {
        cleared_completions(s)
    }
}

/// What a key press does while the console is open: the state, the queued
/// commands and what the widget must do afterwards.
pub open spec fn key_effect(
    o: StateView,
    q: Seq<QueuedView>,
    settings: InputSettings,
    key: LogicalKeyView,
    is_toggle_key: bool,
    is_backspace_key: bool,
    control: bool,
    meta: bool,
    shift: bool,
    composing: bool,
) -> (StateView, Seq<QueuedView>, OutcomeView) {
    match key_action(key, is_toggle_key, is_backspace_key, control, meta, composing, settings.clear_enabled) {
        KeyAction::Ignore => (o, q, no_outcome()),
        KeyAction::ClearLine => (cleared_completions(cleared_input(o)), q, emptied()),
        KeyAction::RecallSearch => (recalled(o), q, show_text(recalled(o).input)),
        KeyAction::ClearInput => (cleared_input(o), q, emptied()),
        KeyAction::ClearCommand => (cleared_completions(cleared_input(o)), q.push(clear_request()), emptied()),
        KeyAction::Submit => (submitted(o, settings), submitted_queue(o, q), submit_outcome()),
        KeyAction::Tab => (tab_pressed(o, shift).0, q, tab_pressed(o, shift).1),
        KeyAction::HistoryUp => (history_up(o).0, q, history_up(o).1),
        KeyAction::HistoryDown => (history_down(o).0, q, history_down(o).1),
        KeyAction::FollowOutput => (StateView { scroll_follow: true, ..o }, q, no_outcome()),
        KeyAction::Escape => (escaped(o), q, no_outcome()),
    }
}

impl ConsoleState {
    /// Handles one key press while the console is open (see [`key_action`]
    /// for which action a press selects).
    #[verifier::rlimit(60)]
    pub fn handle_key(
        &mut self,
        key: &ConsoleKeyPress,
        settings: &InputSettings,
        queue: &mut ConsoleCommandQueue,
    ) -> (r: KeyOutcome)
        requires
            state_wf(old(self)@),
        ensures
            ({
                let o = old(self)@;
                let q = old(queue)@;
                match key_action(
                    key.logical_key@,
                    key.is_toggle_key,
                    key.is_backspace_key,
                    key.control,
                    key.meta,
                    key.composing,
                    settings.clear_enabled,
                ) {
                    KeyAction::Ignore => final(self)@ == o && final(queue)@ == q && r@ == no_outcome(),
                    KeyAction::ClearLine => final(self)@ == cleared_completions(cleared_input(o))
                        && final(queue)@ == q && r@ == emptied(),
                    KeyAction::RecallSearch => final(self)@ == recalled(o) && final(queue)@ == q
                        && r@ == show_text(recalled(o).input),
                    KeyAction::ClearInput => final(self)@ == cleared_input(o) && final(queue)@ == q
                        && r@ == emptied(),
                    KeyAction::ClearCommand => final(self)@ == cleared_completions(cleared_input(o))
                        && final(queue)@ == q.push(clear_request()) && r@ == emptied(),
                    KeyAction::Submit => final(self)@ == submitted(o, *settings) && final(queue)@
                        == submitted_queue(o, q) && r@ == submit_outcome(),
                    KeyAction::Tab => (final(self)@, r@) == tab_pressed(o, key.shift) && final(queue)@ == q,
                    KeyAction::HistoryUp => (final(self)@, r@) == history_up(o) && final(queue)@
                        == q,
                    KeyAction::HistoryDown => (final(self)@, r@) == history_down(o) && final(queue)@ == q,
                    KeyAction::FollowOutput => final(self)@ == (StateView {
                        scroll_follow: true,
                        ..o
                    }) && final(queue)@ == q && r@ == no_outcome(),
                    KeyAction::Escape => final(self)@ == escaped(o) && final(queue)@ == q && r@
                        == no_outcome(),
                }
            }),
            (final(self)@, final(queue)@, r@) == key_effect(
                old(self)@,
                old(queue)@,
                *settings,
                key.logical_key@,
                key.is_toggle_key,
                key.is_backspace_key,
                key.control,
                key.meta,
                key.shift,
                key.composing,
            ),
            state_wf(final(self)@),
    {
        let nothing = KeyOutcome { set_text: None, discard_vertical_moves: false, reset_scroll: false };
        match classify_key(key, settings.clear_enabled) {
            KeyAction::Ignore => nothing,
            KeyAction::ClearLine => {
                self.clear_input();
                self.clear_completions();
                KeyOutcome { set_text: Some((String::new(), 0)), ..nothing }
            },
            KeyAction::RecallSearch => {
                self.recall_history_matching_input();
                let (shown, cursor) = text_at_end(&self.input);
                KeyOutcome { set_text: Some((shown, cursor)), ..nothing }
            },
            KeyAction::ClearInput => {
                self.clear_input();
                KeyOutcome { set_text: Some((String::new(), 0)), ..nothing }
            },
            KeyAction::ClearCommand => {
                proof {
                    reveal_strlit("clear");
                    assert("clear"@ =~= seq!['c', 'l', 'e', 'a', 'r']);
                }
                queue.push(
                    ConsoleRequest { input: String::from_str("clear"), origin: CommandOrigin::LocalUi },
                );
                self.clear_input();
                self.clear_completions();
                KeyOutcome { set_text: Some((String::new(), 0)), ..nothing }
            },
            KeyAction::Submit => self.submit_input(settings, queue),
            KeyAction::Tab => {
                if key.shift && self.completion_items.len() > 0 {
                    self.select_previous_completion();
                    return nothing;
                }
                match self.apply_selected_completion() {
                    Some(cursor) => {
                        self.cmd_history_index = None;
                        self.cmd_history_draft = String::new();
                        let shown = self.input.clone();
                        KeyOutcome { set_text: Some((shown, cursor)), ..nothing }
                    },
                    None => nothing,
                }
            },
            KeyAction::HistoryUp => self.history_up(),
            KeyAction::HistoryDown => self.history_down(),
            KeyAction::FollowOutput => {
                self.scroll_follow = true;
                nothing
            },
            KeyAction::Escape => {
                if self.completion_items.len() == 0 {
                    self.open = false;
                } else {
                    self.clear_completions();
                }
                nothing
            },
        }
    }
}

/// The action a key press selects (see [`key_action`]).
pub fn classify_key(key: &ConsoleKeyPress, clear_enabled: bool) -> (r: KeyAction)
    ensures
        r == key_action(
            key.logical_key@,
            key.is_toggle_key,
            key.is_backspace_key,
            key.control,
            key.meta,
            key.composing,
            clear_enabled,
        ),
{
    if key.is_toggle_key || key.composing {
        return KeyAction::Ignore;
    }
    if key.meta && key.is_backspace_key {
        return KeyAction::ClearLine;
    }
    proof {
        reveal_strlit("r");
        reveal_strlit("u");
        reveal_strlit("l");
        reveal_strlit("\n");
        reveal_strlit("\r");
        assert("r"@ =~= seq!['r']);
        assert("u"@ =~= seq!['u']);
        assert("l"@ =~= seq!['l']);
        assert("\n"@ =~= seq!['\n']);
        assert("\r"@ =~= seq!['\r']);
    }
    match &key.logical_key {
        LogicalKey::Character(c) => {
            let is_r = key.control && str_eq_ignore_case(c.as_str(), "r");
            let is_u = key.control && str_eq_ignore_case(c.as_str(), "u");
            let is_l = key.control && str_eq_ignore_case(c.as_str(), "l") && clear_enabled;
            let is_return = str_eq(c.as_str(), "\n") || str_eq(c.as_str(), "\r");
            if is_r {
                KeyAction::RecallSearch
            } else if is_u {
                KeyAction::ClearInput
            } else if is_l {
                KeyAction::ClearCommand
            } else if is_return {
                KeyAction::Submit
            } else {
                KeyAction::Ignore
            }
        },
        LogicalKey::Enter => KeyAction::Submit,
        LogicalKey::Tab => KeyAction::Tab,
        LogicalKey::ArrowUp => KeyAction::HistoryUp,
        LogicalKey::ArrowDown => KeyAction::HistoryDown,
        LogicalKey::End => if key.control {
            KeyAction::FollowOutput
        } else {
            KeyAction::Ignore
        },
        LogicalKey::Escape => KeyAction::Escape,
        LogicalKey::Other => KeyAction::Ignore,
    }
}

/// Moving the highlight wraps around the candidates: on from the last
/// reaches the first, back from the first reaches the last, and back undoes on.
pub proof fn law_selection_wraps(s: StateView)
    requires
        0 < s.items.len() <= usize::MAX,
        s.match_index < s.items.len(),
    ensures
        s.match_index == s.items.len() - 1 ==> selected_next(s).match_index == 0,
        s.match_index == 0 ==> selected_previous(s).match_index == s.items.len() - 1,
        selected_previous(selected_next(s)).match_index == s.match_index,
        selected_next(selected_previous(s)).match_index == s.match_index,
{
    let n = s.items.len() as int;
    let m = s.match_index as int;
    let nx = (m + 1) % n;
    let pv = (m + n - 1) % n;
    assert(0 <= nx < n && 0 <= pv < n) by (nonlinear_arith)
        requires
            n > 0,
            nx == (m + 1) % n,
            pv == (m + n - 1) % n,
    ;
    assert(m == n - 1 ==> nx == 0) by (nonlinear_arith)
        requires
            n > 0,
            nx == (m + 1) % n,
    ;
    assert(m == 0 ==> pv == n - 1) by (nonlinear_arith)
        requires
            n > 0,
            pv == (m + n - 1) % n,
    ;
    assert((nx + n - 1) % n == m) by (nonlinear_arith)
        requires
            n > 0,
            0 <= m < n,
            nx == (m + 1) % n,
    ;
    assert((pv + 1) % n == m) by (nonlinear_arith)
        requires
            n > 0,
            0 <= m < n,
            pv == (m + n - 1) % n,
    ;
    assert(selected_next(s).match_index as int == nx);
    assert(selected_previous(s).match_index as int == pv);
}

/// Submitting makes the trimmed line, when not empty, the newest recalled
/// command; recall never grows past the limit (nor past its current size);
/// the input is left empty and browsing ends.
pub proof fn law_submit_keeps_recall_bounded(s: StateView, settings: InputSettings)
    requires
        state_wf(s),
        settings.max_command_history > 0,
    ensures
        trim(s.input).len() > 0 ==> submitted(s, settings).history.last() == trim(s.input),
        submitted(s, settings).history.len() <= if s.history.len() > settings.max_command_history {
            s.history.len()
        } else {
            settings.max_command_history as nat
        },
        submitted(s, settings).input.len() == 0,
        submitted(s, settings).history_index is None,
{
    let cmd = trim(s.input);
    if cmd.len() > 0 {
        let r = recorded(s, cmd, settings.max_command_history);
        if !(s.history.len() > 0 && s.history.last() == cmd) {
            let pushed = s.history.push(cmd);
            assert(crate::buffer::keep_last(pushed, settings.max_command_history as nat).last()
                == cmd);
        }
    }
}

/// The entries that [`previous_distinct`] passes over equal the input.
proof fn lemma_previous_distinct_skips(history: Seq<Seq<char>>, input: Seq<char>, end: int)
    requires
        previous_distinct(history, input, end) is Some,
    ensures
        ({
            let idx = previous_distinct(history, input, end)->0 as int;
            &&& 0 <= idx < end <= history.len()
            &&& history[idx] != input
            &&& forall|j: int| idx < j < end ==> #[trigger] history[j] == input
        }),
    decreases end,
{
    if history[end - 1] != input {
    } else {
        lemma_previous_distinct_skips(history, input, end - 1);
    }
}

/// Down undoes Up: from a state that is not browsing recall and has no later
/// candidate highlighted, Up and then Down bring back the input line. When
/// the newest recalled command differs from the input, browsing ends too.
pub proof fn law_down_undoes_up(s: StateView)
    requires
        s.history_index is None,
        !(s.items.len() > 0 && s.match_index > 0),
        s.history.len() <= usize::MAX,
    ensures
        history_down(history_up(s).0).0.input == s.input,
        s.history.len() > 0 && s.history.last() != s.input ==> history_down(history_up(s).0).0.history_index
            is None,
{
    let s1 = history_up(s).0;
    let s2 = history_down(s1).0;
    if s.history.len() > 0 {
        let end = s.history.len() as int;
        if let Some(idx) = previous_distinct(s.history, s.input, end) {
            lemma_previous_distinct_skips(s.history, s.input, end);
            let v = s.history[idx as int];
            assert(s1.history_index == Some(idx as usize) && s1.input == v && s1.draft == s.input);
            assert(s1.history == s.history);
            if idx + 1 < end {
                assert(s.history[idx + 1int] == s.input);
                assert(next_distinct(s.history, v, idx + 1int) == Some((idx + 1) as nat));
                assert(s2.input == s.history[idx + 1int]);
            } else {
                assert(next_distinct(s.history, v, idx + 1int) is None);
                assert(s2.input == s1.draft);
                assert(s2.history_index is None);
            }
        } else {
            assert(s1 == s);
        }
        if s.history.last() != s.input {
            assert(previous_distinct(s.history, s.input, end) == Some((end - 1) as nat));
        }
    } else {
        assert(s1 == s);
    }
}
/// Escape is never a no-op while the console is open: a plain Escape press
/// closes the console when no candidates are shown, and otherwise takes the
/// candidates away and leaves the console open; it queues nothing and leaves
/// the input line alone.
pub proof fn law_escape_dismisses(
    o: StateView,
    q: Seq<QueuedView>,
    settings: InputSettings,
    control: bool,
    meta: bool,
    shift: bool,
)
    ensures
        ({
            let (s, q2, _) = key_effect(o, q, settings, LogicalKeyView::Escape, false, false, control, meta, shift, false);
            &&& q2 == q
            &&& s.input == o.input
            &&& o.items.len() == 0 ==> !s.open
            &&& o.items.len() > 0 ==> s.items.len() == 0 && s.open == o.open
        }),
{
}

} // verus!
