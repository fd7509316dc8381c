//! Console output: severity levels, structured lines and the bounded buffer.

use crate::text::{copy_str, eq_ignore_case, lines_of, lower_seq, split_lines, to_ascii_lowercase};
use std::collections::VecDeque;
use vstd::prelude::*;

verus! {

broadcast use vstd::string::group_string_axioms;

/// Severity for a line in the console output buffer.
#[derive(Debug, Clone, Copy, PartialEq, Eq, PartialOrd, Ord, Hash, Structural)]
pub enum ConsoleLevel {
    Trace,
    Debug,
    Info,
    Warn,
    Error,
}

/// The name of a level.
pub open spec fn level_name(level: ConsoleLevel) -> Seq<char> {
    match level {
        ConsoleLevel::Trace => "trace"@,
        ConsoleLevel::Debug => "debug"@,
        ConsoleLevel::Info => "info"@,
        ConsoleLevel::Warn => "warn"@,
        ConsoleLevel::Error => "error"@,
    }
}

/// The level a name stands for, ignoring ASCII case; `"warning"` is `Warn`.
pub open spec fn level_of_name(name: Seq<char>) -> Option<ConsoleLevel> {
    let l = lower_seq(name);
    if l == "trace"@ {
        Some(ConsoleLevel::Trace)
    } else if l == "debug"@ {
        Some(ConsoleLevel::Debug)
    } else if l == "info"@ {
        Some(ConsoleLevel::Info)
    } else if l == "warn"@ || l == "warning"@ {
        Some(ConsoleLevel::Warn)
    } else if l == "error"@ {
        Some(ConsoleLevel::Error)
    } else {
        None
    }
}

/// A level's name reads back as that level, in any ASCII case: each of
/// `trace`, `debug`, `info`, `warn` and `error`, however its letters are
/// cased, parses to the level it names.
pub proof fn law_level_names_read_back(level: ConsoleLevel, name: Seq<char>)
    requires
        eq_ignore_case(name, level_name(level)),
    ensures
        level_of_name(name) == Some(level),
{
    reveal_strlit("trace");
    reveal_strlit("debug");
    reveal_strlit("info");
    reveal_strlit("warn");
    reveal_strlit("warning");
    reveal_strlit("error");
    let n = level_name(level);
    assert(lower_seq(n) =~= n);
    let l = lower_seq(name);
    assert(l == n);
    match level {
        ConsoleLevel::Trace => {},
        ConsoleLevel::Debug => {
            assert(l != "trace"@) by { assert(l[0] != "trace"@[0]); }
        },
        ConsoleLevel::Info => {
            assert(l != "trace"@ && l != "debug"@);
        },
        ConsoleLevel::Warn => {
            assert(l != "trace"@ && l != "debug"@);
            assert(l != "info"@) by { assert(l[0] != "info"@[0]); }
        },
        ConsoleLevel::Error => {
            assert(l != "trace"@) by { assert(l[0] != "trace"@[0]); }
            assert(l != "debug"@) by { assert(l[0] != "debug"@[0]); }
            assert(l != "info"@ && l != "warn"@ && l != "warning"@);
        },
    }
}

impl ConsoleLevel {
    /// Every level, from least to most severe.
    pub fn all() -> (r: [ConsoleLevel; 5])
        ensures
            r@ == seq![
                ConsoleLevel::Trace,
                ConsoleLevel::Debug,
                ConsoleLevel::Info,
                ConsoleLevel::Warn,
                ConsoleLevel::Error,
            ],
    {
        let r = [
            ConsoleLevel::Trace,
            ConsoleLevel::Debug,
            ConsoleLevel::Info,
            ConsoleLevel::Warn,
            ConsoleLevel::Error,
        ];
        assert(r@ =~= seq![
            ConsoleLevel::Trace,
            ConsoleLevel::Debug,
            ConsoleLevel::Info,
            ConsoleLevel::Warn,
            ConsoleLevel::Error,
        ]);
        r
    }

    /// The lower-case name of this level.
    pub fn as_str(self) -> (r: &'static str)
        ensures
            r@ == level_name(self),
    {
        match self {
            ConsoleLevel::Trace => "trace",
            ConsoleLevel::Debug => "debug",
            ConsoleLevel::Info => "info",
            ConsoleLevel::Warn => "warn",
            ConsoleLevel::Error => "error",
        }
    }

    /// The level a name stands for, ignoring ASCII case.
    pub fn parse_name(value: &str) -> (r: Option<ConsoleLevel>)
        ensures
            r == level_of_name(value@),
    {
        let l = to_ascii_lowercase(value);
        let s = l.as_str();
        if crate::text::str_eq(s, "trace") {
            Some(ConsoleLevel::Trace)
        } else if crate::text::str_eq(s, "debug") {
            Some(ConsoleLevel::Debug)
        } else if crate::text::str_eq(s, "info") {
            Some(ConsoleLevel::Info)
        } else if crate::text::str_eq(s, "warn") || crate::text::str_eq(s, "warning") {
            Some(ConsoleLevel::Warn)
        } else if crate::text::str_eq(s, "error") {
            Some(ConsoleLevel::Error)
        } else {
            None
        }
    }
}

impl Default for ConsoleLevel {
    fn default() -> (r: Self)
        ensures
            r == ConsoleLevel::Info,
    {
        ConsoleLevel::Info
    }
}

impl std::str::FromStr for ConsoleLevel {
    type Err = ();

    fn from_str(value: &str) -> (r: Result<Self, Self::Err>)
        ensures
            match level_of_name(value@) {
                Some(level) => r == Ok::<ConsoleLevel, ()>(level),
                None => r == Err::<ConsoleLevel, ()>(()),
            },
    {
        match ConsoleLevel::parse_name(value) {
            Some(level) => Ok(level),
            None => Err(()),
        }
    }
}

/// Why a line was written to the console.
#[derive(Debug, PartialEq, Eq)]
pub enum ConsoleLineSource {
    /// The prompt line echoed when a command is submitted.
    CommandEcho { name: String },
    /// Output produced while executing a command.
    Command { name: String },
    Log { target: String },
    System,
}

/// The model of a [`ConsoleLineSource`].
pub enum LineSourceView {
    CommandEcho { name: Seq<char> },
    Command { name: Seq<char> },
    Log { target: Seq<char> },
    System,
}

impl View for ConsoleLineSource {
    type V = LineSourceView;

    open spec fn view(&self) -> LineSourceView {
        match self {
            ConsoleLineSource::CommandEcho { name } => LineSourceView::CommandEcho { name: name@ },
            ConsoleLineSource::Command { name } => LineSourceView::Command { name: name@ },
            ConsoleLineSource::Log { target } => LineSourceView::Log { target: target@ },
            ConsoleLineSource::System => LineSourceView::System,
        }
    }
}

impl Clone for ConsoleLineSource {
    fn clone(&self) -> (r: Self)
        ensures
            r@ == self@,
    {
        match self {
            ConsoleLineSource::CommandEcho { name } => ConsoleLineSource::CommandEcho {
                name: name.clone(),
            },
            ConsoleLineSource::Command { name } => ConsoleLineSource::Command { name: name.clone() },
            ConsoleLineSource::Log { target } => ConsoleLineSource::Log { target: target.clone() },
            ConsoleLineSource::System => ConsoleLineSource::System,
        }
    }
}

/// One structured line in the output buffer.
#[derive(Debug, PartialEq, Eq)]
pub struct ConsoleLine {
    pub id: u64,
    pub level: ConsoleLevel,
    pub source: ConsoleLineSource,
    pub text: String,
}

/// The model of a [`ConsoleLine`].
pub struct LineView {
    pub id: u64,
    pub level: ConsoleLevel,
    pub source: LineSourceView,
    pub text: Seq<char>,
}

impl View for ConsoleLine {
    type V = LineView;

    open spec fn view(&self) -> LineView {
        LineView { id: self.id, level: self.level, source: self.source@, text: self.text@ }
    }
}

impl Clone for ConsoleLine {
    fn clone(&self) -> (r: Self)
        ensures
            r@ == self@,
    {
        ConsoleLine {
            id: self.id,
            level: self.level,
            source: self.source.clone(),
            text: self.text.clone(),
        }
    }
}

/// A line submitted by game systems or a log integration. The console moves
/// these messages into [`ConsoleBuffer`] once per frame.
#[derive(Debug, PartialEq, Eq)]
pub struct ConsoleLineMessage {
    pub level: ConsoleLevel,
    pub source: ConsoleLineSource,
    pub text: String,
}

impl Clone for ConsoleLineMessage {
    fn clone(&self) -> (r: Self)
        ensures
            r.level == self.level,
            r.source@ == self.source@,
            r.text@ == self.text@,
    {
        ConsoleLineMessage { level: self.level, source: self.source.clone(), text: self.text.clone() }
    }
}

impl ConsoleLineMessage {
    /// An info-level line from the system.
    pub fn info(text: &str) -> (r: Self)
        ensures
            r.level == ConsoleLevel::Info,
            r.source@ == LineSourceView::System,
            r.text@ == text@,
    {
        ConsoleLineMessage { level: ConsoleLevel::Info, source: ConsoleLineSource::System, text: copy_str(text) }
    }
}

/// The id that follows `id` (wrapping at `u64::MAX`).
pub open spec fn next_id(id: u64) -> u64 {
    if id == u64::MAX {
        0
    } else {
        (id + 1) as u64
    }
}

/// The id `k` steps after `id`.
pub open spec fn id_after(id: u64, k: nat) -> u64
    decreases k,
{
    if k == 0 {
        id
    } else {
        next_id(id_after(id, (k - 1) as nat))
    }
}

/// The lines that writing `texts` appends, numbered after `last_id`.
pub open spec fn appended_lines(
    level: ConsoleLevel,
    source: LineSourceView,
    texts: Seq<Seq<char>>,
    last_id: u64,
) -> Seq<LineView> {
    Seq::new(
        texts.len(),
        |i: int| LineView { id: id_after(last_id, (i + 1) as nat), level, source, text: texts[i] },
    )
}

/// The last `max` elements of `s` (all of `s` when it is shorter).
pub open spec fn keep_last<T>(s: Seq<T>, max: nat) -> Seq<T> {
    if s.len() > max {
        s.skip(s.len() - max)
    } else {
        s
    }
}

/// The buffer after writing `text`: each of its lines (as `str::lines`
/// splits it) is appended with the next id, then the oldest lines beyond the
/// limit are dropped.
pub open spec fn pushed(b: BufferView, level: ConsoleLevel, source: LineSourceView, text: Seq<char>) -> BufferView {
    BufferView {
        lines: keep_last(b.lines + appended_lines(level, source, lines_of(text), b.last_id), b.max_lines),
        max_lines: b.max_lines,
        last_id: id_after(b.last_id, lines_of(text).len()),
    }
}

/// Bounded structured output retained by the console.
pub struct ConsoleBuffer {
    lines: VecDeque<ConsoleLine>,
    max_lines: usize,
    next_id: u64,
    /// How many ids have been given out, without wrapping.
    issued: Ghost<nat>,
}

/// The model of a [`ConsoleBuffer`].
pub struct BufferView {
    pub lines: Seq<LineView>,
    pub max_lines: nat,
    pub last_id: u64,
}

impl View for ConsoleBuffer {
    type V = BufferView;

    closed spec fn view(&self) -> BufferView {
        BufferView {
            lines: self.lines@.map_values(|l: ConsoleLine| l@),
            max_lines: self.max_lines as nat,
            last_id: self.next_id,
        }
    }
}

/// The views of `lines`.
spec fn line_views(lines: VecDeque<ConsoleLine>) -> Seq<LineView> {
    lines@.map_values(|l: ConsoleLine| l@)
}

/// Drops the oldest of `lines` beyond `max`.
fn trim_lines(lines: &mut VecDeque<ConsoleLine>, max: usize)
    ensures
        line_views(*final(lines)) == keep_last(line_views(*old(lines)), max as nat),
{
    let ghost orig = line_views(*lines);
    while lines.len() > max
        invariant
            orig == line_views(*old(lines)),
            line_views(*lines).len() >= max ==> keep_last(orig, max as nat) == keep_last(
                line_views(*lines),
                max as nat,
            ),
            line_views(*lines).len() < max ==> line_views(*lines) == orig,
        decreases lines@.len(),
    {
        let ghost before = line_views(*lines);
        lines.pop_front();
        assert(line_views(*lines) =~= before.skip(1));
        assert(keep_last(before, max as nat) =~= keep_last(line_views(*lines), max as nat));
    }
}

/// Keeping the newest lines keeps their ids in order and bounded.
proof fn lemma_keep_last_ids(lines: Seq<LineView>, max: nat, last: u64)
    requires
        ids_increasing(lines),
        ids_at_most(lines, last),
    ensures
        ids_increasing(keep_last(lines, max)),
        ids_at_most(keep_last(lines, max), last),
{
    let after = keep_last(lines, max);
    let d = lines.len() - after.len();
    assert forall|i: int, j: int| 0 <= i < j < after.len() implies #[trigger] after[i].id
        < #[trigger] after[j].id by {
        assert(after[i] == lines[i + d] && after[j] == lines[j + d]);
    }
    assert forall|i: int| 0 <= i < after.len() implies #[trigger] after[i].id <= last by {
        assert(after[i] == lines[i + d]);
    }
}

impl ConsoleBuffer {
    /// How many line ids the buffer has given out, counted without wrapping.
    pub closed spec fn ids_issued(&self) -> nat {
        self.issued@
    }

    /// While no id has wrapped past `u64::MAX`, the last id given is the
    /// count of ids given, and the lines' ids increase and do not exceed it.
    #[verifier::type_invariant]
    closed spec fn ids_ordered(&self) -> bool {
        self.issued@ <= u64::MAX ==> {
            &&& self.next_id == self.issued@
            &&& ids_increasing(line_views(self.lines))
            &&& ids_at_most(line_views(self.lines), self.next_id)
        }
    }

    /// An empty buffer keeping at most `max_lines` lines.
    pub fn new(max_lines: usize) -> (r: Self)
        ensures
            r@ == (BufferView { lines: Seq::empty(), max_lines: max_lines as nat, last_id: 0 }),
            r.ids_issued() == 0,
    {
        let r = ConsoleBuffer { lines: VecDeque::new(), max_lines, next_id: 0, issued: Ghost(0) };
        assert(r@.lines =~= Seq::<LineView>::empty());
        r
    }

    pub fn max_lines(&self) -> (r: usize)
        ensures
            r == self@.max_lines,
    {
        self.max_lines
    }

    /// Changes the limit, dropping the oldest lines beyond it.
    pub fn set_max_lines(&mut self, max_lines: usize)
        ensures
            final(self)@.max_lines == max_lines,
            final(self)@.lines == keep_last(old(self)@.lines, max_lines as nat),
            final(self)@.last_id == old(self)@.last_id,
            final(self).ids_issued() == old(self).ids_issued(),
    {
        proof {
            use_type_invariant(&*self);
        }
        let mut lines = VecDeque::new();
        std::mem::swap(&mut lines, &mut self.lines);
        trim_lines(&mut lines, max_lines);
        proof {
            if self.issued@ <= u64::MAX {
                lemma_keep_last_ids(old(self)@.lines, max_lines as nat, self.next_id);
            }
        }
        *self = ConsoleBuffer { lines, max_lines, next_id: self.next_id, issued: self.issued };
    }

    /// The retained lines, oldest first. While no id has wrapped past
    /// `u64::MAX`, their ids increase and none exceeds the last id given.
    pub fn lines(&self) -> (r: &VecDeque<ConsoleLine>)
        ensures
            r@.map_values(|l: ConsoleLine| l@) == self@.lines,
            self.ids_issued() <= u64::MAX ==> ids_increasing(self@.lines) && ids_at_most(
                self@.lines,
                self@.last_id,
            ),
    {
        proof {
            use_type_invariant(self);
        }
        &self.lines
    }

    /// Number of retained lines.
    pub fn len(&self) -> (r: usize)
        ensures
            r == self@.lines.len(),
    {
        self.lines.len()
    }

    /// The retained line at `index` (oldest first).
    pub fn line(&self, index: usize) -> (r: Option<&ConsoleLine>)
        ensures
            index < self@.lines.len() ==> (r matches Some(l) && l@ == self@.lines[index as int]),
            index >= self@.lines.len() ==> r is None,
    {
        if index < self.lines.len() {
            Some(&self.lines[index])
        } else {
            None
        }
    }

    /// Returns the most recently appended output line, if any.
    pub fn last_line(&self) -> (r: Option<&ConsoleLine>)
        ensures
            self@.lines.len() == 0 ==> r is None,
            self@.lines.len() > 0 ==> (r matches Some(l) && l@ == self@.lines.last()),
    {
        let n = self.lines.len();
        if n == 0 {
            None
        } else {
            Some(&self.lines[n - 1])
        }
    }

    /// Removes every line. Ids keep counting from where they were.
    pub fn clear(&mut self)
        ensures
            final(self)@ == (BufferView { lines: Seq::empty(), ..old(self)@ }),
            final(self).ids_issued() == old(self).ids_issued(),
    {
        proof {
            use_type_invariant(&*self);
        }
        self.lines = VecDeque::new();
        assert(self@.lines =~= Seq::<LineView>::empty());
    }

    /// Appends each line of `text` (as `str::lines` splits it), numbering them
    /// with consecutive ids, then drops the oldest lines beyond the limit.
    pub fn push(&mut self, level: ConsoleLevel, source: ConsoleLineSource, text: &str)
        ensures
            final(self)@ == pushed(old(self)@, level, source@, text@),
            final(self).ids_issued() == old(self).ids_issued() + lines_of(text@).len(),
            final(self).ids_issued() <= u64::MAX ==> ids_increasing(final(self)@.lines) && ids_at_most(
                final(self)@.lines,
                final(self)@.last_id,
            ),
    {
        proof {
            use_type_invariant(&*self);
        }
        let texts = split_lines(text);
        let ghost start = self@.lines;
        let ghost first_id = self.next_id;
        let ghost tv = texts@.map_values(|l: String| l@);
        let mut lines = VecDeque::new();
        std::mem::swap(&mut lines, &mut self.lines);
        let mut next_id = self.next_id;
        let mut i: usize = 0;
        while i < texts.len()
            invariant
                0 <= i <= texts@.len(),
                tv == texts@.map_values(|l: String| l@),
                next_id == id_after(first_id, i as nat),
                line_views(lines) == start + appended_lines(level, source@, tv, first_id).take(i as int),
            decreases texts@.len() - i,
        {
            next_id = next_id.wrapping_add(1);
            let line = ConsoleLine { id: next_id, level, source: source.clone(), text: texts[i].clone() };
            let ghost before = line_views(lines);
            lines.push_back(line);
            assert(line_views(lines) =~= before.push(line@));
            assert(appended_lines(level, source@, tv, first_id).take(i + 1) =~= appended_lines(
                level,
                source@,
                tv,
                first_id,
            ).take(i as int).push(line@));
            i = i + 1;
        }
        assert(appended_lines(level, source@, tv, first_id).take(i as int) =~= appended_lines(
            level,
            source@,
            tv,
            first_id,
        ));
        trim_lines(&mut lines, self.max_lines);
        let issued = Ghost(self.issued@ + tv.len());
        proof {
            if issued@ <= u64::MAX {
                law_buffer_ids_increase(old(self)@, level, source@, text@);
                lemma_id_after(first_id, tv.len());
            }
        }
        *self = ConsoleBuffer { lines, max_lines: self.max_lines, next_id, issued };
    }
}

impl Default for ConsoleBuffer {
    fn default() -> (r: Self)
        ensures
            r@.lines.len() == 0,
            r@.max_lines == 256,
            r@.last_id == 0,
    {
        ConsoleBuffer::new(256)
    }
}

/// Structured output returned by commands.
#[derive(Debug, PartialEq, Eq)]
pub struct ConsoleResult {
    pub lines: Vec<(ConsoleLevel, String)>,
}

/// The lines of a [`ConsoleResult`].
pub open spec fn result_lines(r: ConsoleResult) -> Seq<(ConsoleLevel, Seq<char>)> {
    r.lines@.map_values(|l: (ConsoleLevel, String)| (l.0, l.1@))
}

impl ConsoleResult {
    /// One info-level line.
    pub fn info(text: &str) -> (r: Self)
        ensures
            result_lines(r) == seq![(ConsoleLevel::Info, text@)],
    {
        let r = ConsoleResult { lines: vec![(ConsoleLevel::Info, copy_str(text))] };
        assert(result_lines(r) =~= seq![(ConsoleLevel::Info, text@)]);
        r
    }

    /// One error-level line.
    pub fn error(text: &str) -> (r: Self)
        ensures
            result_lines(r) == seq![(ConsoleLevel::Error, text@)],
    {
        let r = ConsoleResult { lines: vec![(ConsoleLevel::Error, copy_str(text))] };
        assert(result_lines(r) =~= seq![(ConsoleLevel::Error, text@)]);
        r
    }

    /// Adds a line.
    pub fn line(self, level: ConsoleLevel, text: &str) -> (r: Self)
        ensures
            result_lines(r) == result_lines(self).push((level, text@)),
    {
        let mut lines = self.lines;
        lines.push((level, copy_str(text)));
        let r = ConsoleResult { lines };
        assert(result_lines(r) =~= result_lines(self).push((level, text@)));
        r
    }

    /// Whether no line is an error.
    pub fn succeeded(&self) -> (r: bool)
        ensures
            r == forall|i: int| 0 <= i < self.lines@.len() ==> self.lines@[i].0 != ConsoleLevel::Error,
    {
        let mut i: usize = 0;
        while i < self.lines.len()
            invariant
                0 <= i <= self.lines@.len(),
                forall|j: int| 0 <= j < i ==> self.lines@[j].0 != ConsoleLevel::Error,
            decreases self.lines@.len() - i,
        {
            if self.lines[i].0 == ConsoleLevel::Error {
                return false;
            }
            i = i + 1;
        }
        true
    }
}

impl Default for ConsoleResult {
    fn default() -> (r: Self)
        ensures
            r.lines@.len() == 0,
    {
        ConsoleResult { lines: Vec::new() }
    }
}

impl ConsoleResult {
    /// One info-level line holding `text`.
    pub fn from_text(text: String) -> (r: Self)
        ensures
            result_lines(r) == seq![(ConsoleLevel::Info, text@)],
    {
        let r = ConsoleResult { lines: vec![(ConsoleLevel::Info, text)] };
        assert(result_lines(r) =~= seq![(ConsoleLevel::Info, text@)]);
        r
    }
}

/// A plain string becomes one info-level line; [`ConsoleResult::from_text`]
/// states this.
impl From<String> for ConsoleResult {
    fn from(text: String) -> (r: Self) {
        ConsoleResult::from_text(text)
    }
}

impl vstd::std_specs::convert::FromSpecImpl<String> for ConsoleResult {
    /// A vector cannot be written in a specification, so the conversion is
    /// described by `from_text` instead.
    open spec fn obeys_from_spec() -> bool {
        false
    }

    open spec fn from_spec(text: String) -> ConsoleResult {
        vstd::pervasive::arbitrary()
    }
}

/// The buffer never holds more lines than its limit, and writing text whose
/// lines fit leaves them as the newest lines, in order, with the ids that
/// follow the last one given.
pub proof fn law_buffer_bounded(b: BufferView, level: ConsoleLevel, source: LineSourceView, text: Seq<char>)
    ensures
        pushed(b, level, source, text).lines.len() <= b.max_lines,
        lines_of(text).len() <= b.max_lines ==> ({
            let after = pushed(b, level, source, text).lines;
            let n = lines_of(text).len();
            &&& after.len() >= n
            &&& after.skip(after.len() - n) == appended_lines(level, source, lines_of(text), b.last_id)
        }),
{
    let all = b.lines + appended_lines(level, source, lines_of(text), b.last_id);
    let n = lines_of(text).len();
    if n <= b.max_lines {
        let after = keep_last(all, b.max_lines);
        assert(after.skip(after.len() - n) =~= appended_lines(level, source, lines_of(text), b.last_id));
    }
}

/// The ids of `lines` increase strictly from oldest to newest.
pub open spec fn ids_increasing(lines: Seq<LineView>) -> bool {
    forall|i: int, j: int| 0 <= i < j < lines.len() ==> #[trigger] lines[i].id < #[trigger] lines[j].id
}

/// No line of `lines` has an id above `id`.
pub open spec fn ids_at_most(lines: Seq<LineView>, id: u64) -> bool {
    forall|i: int| 0 <= i < lines.len() ==> #[trigger] lines[i].id <= id
}

/// Without wrapping, the id `k` steps after `id` is `id + k`.
proof fn lemma_id_after(id: u64, k: nat)
    requires
        id + k <= u64::MAX,
    ensures
        id_after(id, k) == id + k,
    decreases k,
{
    if k > 0 {
        lemma_id_after(id, (k - 1) as nat);
    }
}

/// Line ids stay strictly increasing and no greater than the last id given:
/// a write whose ids do not wrap past `u64::MAX` numbers its lines after
/// every line already held.
pub proof fn law_buffer_ids_increase(b: BufferView, level: ConsoleLevel, source: LineSourceView, text: Seq<char>)
    requires
        ids_increasing(b.lines),
        ids_at_most(b.lines, b.last_id),
        b.last_id + lines_of(text).len() <= u64::MAX,
    ensures
        ids_increasing(pushed(b, level, source, text).lines),
        ids_at_most(pushed(b, level, source, text).lines, pushed(b, level, source, text).last_id),
{
    let n = lines_of(text).len();
    let app = appended_lines(level, source, lines_of(text), b.last_id);
    let all = b.lines + app;
    assert forall|i: int| 0 <= i < app.len() implies #[trigger] app[i].id == b.last_id + i + 1 by {
        lemma_id_after(b.last_id, (i + 1) as nat);
    }
    lemma_id_after(b.last_id, n);
    assert(ids_increasing(all)) by {
        assert forall|i: int, j: int| 0 <= i < j < all.len() implies #[trigger] all[i].id
            < #[trigger] all[j].id by {
            if j < b.lines.len() {
                assert(all[i] == b.lines[i] && all[j] == b.lines[j]);
            } else if i < b.lines.len() {
                assert(all[i] == b.lines[i] && all[j] == app[j - b.lines.len()]);
            } else {
                assert(all[i] == app[i - b.lines.len()] && all[j] == app[j - b.lines.len()]);
            }
        }
    }
    assert(ids_at_most(all, id_after(b.last_id, n))) by {
        assert forall|i: int| 0 <= i < all.len() implies #[trigger] all[i].id <= id_after(b.last_id, n) by {
            if i < b.lines.len() {
                assert(all[i] == b.lines[i]);
            } else {
                assert(all[i] == app[i - b.lines.len()]);
            }
        }
    }
    let after = keep_last(all, b.max_lines);
    let d = all.len() - after.len();
    assert forall|i: int| 0 <= i < after.len() implies #[trigger] after[i] == all[i + d] by {}
    assert(ids_increasing(after)) by {
        assert forall|i: int, j: int| 0 <= i < j < after.len() implies #[trigger] after[i].id
            < #[trigger] after[j].id by {
            assert(after[i] == all[i + d] && after[j] == all[j + d]);
        }
    }
    assert(ids_at_most(after, id_after(b.last_id, n))) by {
        assert forall|i: int| 0 <= i < after.len() implies #[trigger] after[i].id <= id_after(b.last_id, n) by {
            assert(after[i] == all[i + d]);
        }
    }
}

/// What a write leaves: the texts are the newest `max_lines` of the old
/// texts followed by the lines of `text`; a kept old line is unchanged; a
/// kept new line has the written level and source, and, when ids do not
/// wrap, an id above every id held before.
pub proof fn law_buffer_push_contents(
    b: BufferView,
    level: ConsoleLevel,
    source: LineSourceView,
    text: Seq<char>,
)
    ensures
        pushed(b, level, source, text).lines.map_values(|l: LineView| l.text) == keep_last(
            b.lines.map_values(|l: LineView| l.text) + lines_of(text),
            b.max_lines,
        ),
        ({
            let after = pushed(b, level, source, text).lines;
            let d = b.lines.len() + lines_of(text).len() - after.len();
            forall|i: int|
                0 <= i < after.len() ==> if i + d < b.lines.len() {
                    #[trigger] after[i] == b.lines[i + d]
                } else {
                    &&& after[i].level == level
                    &&& after[i].source == source
                    &&& after[i].text == lines_of(text)[i + d - b.lines.len()]
                    &&& (ids_at_most(b.lines, b.last_id) && b.last_id + lines_of(text).len() <= u64::MAX)
                        ==> forall|k: int| 0 <= k < b.lines.len() ==> #[trigger] b.lines[k].id < after[i].id
                }
        }),
{
    let n = lines_of(text).len();
    let app = appended_lines(level, source, lines_of(text), b.last_id);
    let all = b.lines + app;
    let texts = b.lines.map_values(|l: LineView| l.text) + lines_of(text);
    assert(all.map_values(|l: LineView| l.text) =~= texts);
    let after = keep_last(all, b.max_lines);
    let d = all.len() - after.len();
    assert(after.map_values(|l: LineView| l.text) =~= keep_last(texts, b.max_lines));
    assert forall|i: int| 0 <= i < after.len() implies if i + d < b.lines.len() {
        #[trigger] after[i] == b.lines[i + d]
    } else {
        &&& after[i].level == level
        &&& after[i].source == source
        &&& after[i].text == lines_of(text)[i + d - b.lines.len()]
        &&& (ids_at_most(b.lines, b.last_id) && b.last_id + lines_of(text).len() <= u64::MAX) ==> forall|
            k: int,
        | 0 <= k < b.lines.len() ==> #[trigger] b.lines[k].id < after[i].id
    } by {
        assert(after[i] == all[i + d]);
        if i + d >= b.lines.len() {
            let j = i + d - b.lines.len();
            assert(all[i + d] == app[j]);
            if ids_at_most(b.lines, b.last_id) && b.last_id + n <= u64::MAX {
                lemma_id_after(b.last_id, (j + 1) as nat);
            }
        }
    }
}

} // verus!
