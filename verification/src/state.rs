//! The console's interactive state: the input line, completion candidates and
//! their selection, and submitted-command recall.

use crate::buffer::keep_last;
use crate::model::{CompletionItem, ItemView};
use crate::parser::{closes, scan, token_view, QuoteStyle};
use crate::text::{
    utf8_len, byte_pos, char_is_whitespace, char_width, chars_contains, chars_of, contains_seq, is_space,
    lemma_byte_pos_mono, lemma_byte_pos_step, lemma_str_len, lower_seq, str_eq, string_from_chars,
    to_ascii_lowercase,
};
use std::ops::Range;
use vstd::prelude::*;

verus! {

broadcast use vstd::string::group_string_axioms;

/// Interactive console state shared by input handling, completion, execution
/// and the interface.
pub struct ConsoleState {
    /// Whether the console can be opened. When `false` the toggle key does
    /// nothing and an open console is closed.
    pub enabled: bool,
    pub open: bool,
    pub input: String,
    /// All ranked completion candidates for the current command word or argument.
    pub completion_items: Vec<CompletionItem>,
    /// Number of completion candidates beyond the first visible suggestion page.
    pub completion_overflow: usize,
    /// Index into `completion_items` that is currently highlighted.
    pub match_index: usize,
    /// Set whenever the input changes; completion is refreshed and clears it.
    pub completion_dirty: bool,
    /// Cursor position for the next completion refresh after a suggestion was
    /// accepted, before the text widget reports its own cursor.
    pub completion_cursor: Option<usize>,
    /// When true the history panel follows the newest line.
    pub scroll_follow: bool,
    /// Previously submitted commands, oldest first, for Up/Down recall.
    pub cmd_history: Vec<String>,
    /// The echoed output line of each recalled command, when still known.
    pub cmd_history_line_ids: Vec<Option<u64>>,
    /// `Some(i)` while the user is browsing `cmd_history`.
    pub cmd_history_index: Option<usize>,
    /// The live input saved when history browsing started.
    pub cmd_history_draft: String,
    /// The recall entry submitted from the input bar whose echo is awaited.
    pub pending_history_index: Option<usize>,
    /// Bumped whenever command recall changes.
    pub command_history_revision: u64,
}

/// The model of a [`ConsoleState`].
pub struct StateView {
    pub enabled: bool,
    pub open: bool,
    pub input: Seq<char>,
    pub items: Seq<ItemView>,
    pub overflow: usize,
    pub match_index: usize,
    pub dirty: bool,
    pub completion_cursor: Option<usize>,
    pub scroll_follow: bool,
    pub history: Seq<Seq<char>>,
    pub line_ids: Seq<Option<u64>>,
    pub history_index: Option<usize>,
    pub draft: Seq<char>,
    pub pending: Option<usize>,
    pub revision: u64,
}

impl View for ConsoleState {
    type V = StateView;

    open spec fn view(&self) -> StateView {
        StateView {
            enabled: self.enabled,
            open: self.open,
            input: self.input@,
            items: self.completion_items@.map_values(|i: CompletionItem| i@),
            overflow: self.completion_overflow,
            match_index: self.match_index,
            dirty: self.completion_dirty,
            completion_cursor: self.completion_cursor,
            scroll_follow: self.scroll_follow,
            history: self.cmd_history@.map_values(|s: String| s@),
            line_ids: self.cmd_history_line_ids@,
            history_index: self.cmd_history_index,
            draft: self.cmd_history_draft@,
            pending: self.pending_history_index,
            revision: self.command_history_revision,
        }
    }
}

/// The revision that follows `r` (wrapping at `u64::MAX`).
pub open spec fn next_revision(r: u64) -> u64 {
    if r == u64::MAX {
        0
    } else {
        (r + 1) as u64
    }
}

/// Recall keeps one echo slot per command, and a browsing index points into it.
pub open spec fn state_wf(s: StateView) -> bool {
    &&& s.line_ids.len() == s.history.len()
    &&& (s.history_index matches Some(i) ==> i < s.history.len())
}

/// Recall after submitting `command` with at most `limit` commands kept:
/// repeating the newest command adds nothing; otherwise the command is
/// appended, unlinked, the oldest beyond the limit are dropped and the
/// revision moves on. Either way the newest entry awaits its echo.
pub open spec fn recorded(o: StateView, command: Seq<char>, limit: usize) -> StateView {
    if o.history.len() > 0 && o.history.last() == command {
        StateView { pending: Some((o.history.len() - 1) as usize), ..o }
    } else {
        let h = keep_last(o.history.push(command), limit as nat);
        StateView {
            history: h,
            line_ids: keep_last(o.line_ids.push(None), limit as nat),
            pending: if h.len() > 0 {
                Some((h.len() - 1) as usize)
            } else {
                None
            },
            revision: next_revision(o.revision),
            ..o
        }
    }
}

/// The last entry of `history` before `end` that contains `needle`.
pub open spec fn last_containing(history: Seq<Seq<char>>, needle: Seq<char>, end: int) -> Option<nat>
    decreases end,
{
    if end <= 0 || end > history.len() {
        None
    } else if contains_seq(lower_seq(history[end - 1]), needle) {
        Some((end - 1) as nat)
    } else {
        last_containing(history, needle, end - 1)
    }
}

/// The state after searching recall for the input: the newest command that
/// contains it, ignoring ASCII case, replaces it; nothing changes when none
/// does.
pub open spec fn recalled(o: StateView) -> StateView {
    match last_containing(o.history, lower_seq(o.input), o.history.len() as int) {
        Some(i) => StateView { input: o.history[i as int], completion_cursor: None, dirty: true, ..o },
        None => o,
    }
}

/// The edit that accepting the highlighted candidate makes, if any (see
/// [`completion_edit`]).
pub open spec fn selected_edit(o: StateView) -> Option<(Seq<char>, int)> {
    if o.match_index < o.items.len() {
        completion_edit(o.input, o.items[o.match_index as int])
    } else {
        None
    }
}

/// The highlighted page of `len` candidates shown `page` at a time.
pub open spec fn page_range(selected: int, len: int, page: int) -> (int, int) {
    if page <= 0 || len <= 0 {
        (0, 0)
    } else {
        let sel = if selected < len - 1 {
            selected
        } else {
            len - 1
        };
        let start = sel / page * page;
        let end = if start + page < len {
            start + page
        } else {
            len
        };
        (start, end)
    }
}

/// Removes the first `n` elements of `v`.
fn drop_front<T>(v: &mut Vec<T>, n: usize)
    requires
        n <= old(v)@.len(),
    ensures
        final(v)@ == old(v)@.skip(n as int),
{
    let ghost orig = v@;
    let mut k: usize = 0;
    while k < n
        invariant
            0 <= k <= n,
            n <= orig.len(),
            v@ == orig.skip(k as int),
        decreases n - k,
    {
        let ghost before = v@;
        v.remove(0);
        assert(v@ =~= orig.skip(k + 1));
        k = k + 1;
    }
}

/// A character that forces a completion value into quotes.
pub open spec fn needs_quotes(c: char) -> bool {
    is_space(c) || c == '\\' || c == '\'' || c == '"'
}

/// `t` escaped for use inside `q` quotes: each backslash and each `q` gets a
/// backslash before it.
pub open spec fn escape_for_quote(t: Seq<char>, q: char) -> Seq<char>
    decreases t.len(),
{
    if t.len() == 0 {
        Seq::empty()
    } else {
        let c = t.last();
        escape_for_quote(t.drop_last(), q) + if c == '\\' || c == q {
            seq!['\\', c]
        } else {
            seq![c]
        }
    }
}

/// The text that accepting a default candidate inserts: escaped for the
/// quote it follows, else quoted when it holds whitespace, a backslash or a
/// quote, else unchanged.
pub open spec fn format_completion_text(t: Seq<char>, quote: Option<char>) -> Seq<char> {
    match quote {
        Some(q) => escape_for_quote(t, q),
        None => if exists|i: int| 0 <= i < t.len() && needs_quotes(#[trigger] t[i]) {
            seq!['"'] + escape_for_quote(t, '"') + seq!['"']
        } else {
            t
        },
    }
}

/// The character index of `cs` that starts at byte offset `b`, if `b` is a
/// character boundary.
pub open spec fn char_index_at(cs: Seq<char>, b: int) -> Option<int> {
    if exists|i: int| 0 <= i <= cs.len() && byte_pos(cs, i) == b {
        Some(choose|i: int| 0 <= i <= cs.len() && byte_pos(cs, i) == b)
    } else {
        None
    }
}

/// After the inserted text ends at character `k` of `s`: step over or add the
/// closing quote, then add a space unless whitespace already follows.
pub open spec fn finish_insert(
    s: Seq<char>,
    k: int,
    quote: Option<char>,
    default_insert: bool,
    append_space: bool,
) -> (Seq<char>, int) {
    let (s2, k2) = match quote {
        Some(q) => if k < s.len() && s[k] == q {
            (s, k + 1)
        } else if default_insert {
            (s.insert(k, q), k + 1)
        } else {
            (s, k)
        },
        None => (s, k),
    };
    if append_space && !(k2 < s2.len() && is_space(s2[k2])) {
        (s2.insert(k2, ' '), k2 + 1)
    } else {
        (s2, k2)
    }
}

/// The quote character just before character index `i` of `cs`, if any.
pub open spec fn quote_before(cs: Seq<char>, i: int) -> Option<char> {
    if i > 0 && (cs[i - 1] == '\'' || cs[i - 1] == '"') {
        Some(cs[i - 1])
    } else {
        None
    }
}

/// Accepting `item` on input `cs`: the new input and the character index the
/// cursor moves to, or `None` when the item's byte range is not a valid range
/// of character boundaries of `cs`.
pub open spec fn completion_edit(cs: Seq<char>, item: ItemView) -> Option<(Seq<char>, int)> {
    match (char_index_at(cs, item.replace_start as int), char_index_at(cs, item.replace_end as int)) {
        (Some(i), Some(j)) => if item.replace_start > item.replace_end {
            None
        } else {
            let quote = quote_before(cs, i);
            let default_insert = item.insert_text == item.label;
            let ins = if default_insert {
                format_completion_text(item.insert_text, quote)
            } else {
                item.insert_text
            };
            Some(
                finish_insert(
                    cs.take(i) + ins + cs.skip(j),
                    i + ins.len(),
                    quote,
                    default_insert,
                    item.append_space,
                ),
            )
        },
        _ => None,
    }
}

/// Closes the quote and appends the space after an insertion (see
/// [`finish_insert`]).
fn finish_insert_chars(
    s: &mut Vec<char>,
    k: usize,
    quote: Option<char>,
    default_insert: bool,
    append_space: bool,
) -> (r: usize)
    requires
        k <= old(s)@.len(),
    ensures
        (final(s)@, r as int) == finish_insert(old(s)@, k as int, quote, default_insert, append_space),
        r <= final(s)@.len(),
{
    let mut k = k;
    match quote {
        Some(q) => {
            if k < s.len() && s[k] == q {
                k = k + 1;
            } else if default_insert {
                s.insert(k, q);
                assert(k < s.len());
                k = k + 1;
            }
        },
        None => {},
    }
    if append_space && !(k < s.len() && char_is_whitespace(s[k])) {
        s.insert(k, ' ');
        assert(k < s.len());
        k = k + 1;
    }
    k
}

/// The new input characters and cursor character index after accepting
/// `item` on `cs` (see [`completion_edit`]); `total` is the byte length of `cs`.
fn completion_edit_chars(cs: &Vec<char>, item: &CompletionItem, total: usize) -> (r: Option<(Vec<char>, usize)>)
    requires
        total == byte_pos(cs@, cs@.len() as int),
    ensures
        match completion_edit(cs@, item@) {
            Some((s, k)) => r matches Some((v, n)) && v@ == s && n == k && n <= v@.len(),
            None => r is None,
        },
{
    let start = item.replace.start;
    let end = item.replace.end;
    let i = match char_index_at_byte(cs, start, total) {
        Some(i) => i,
        None => {
            return None;
        },
    };
    let j = match char_index_at_byte(cs, end, total) {
        Some(j) => j,
        None => {
            return None;
        },
    };
    if start > end {
        return None;
    }
    proof {
        if j < i {
            lemma_byte_pos_mono(cs@, j as int, i as int);
        }
    }
    let quote: Option<char> = if i > 0 && (cs[i - 1] == '\'' || cs[i - 1] == '"') {
        Some(cs[i - 1])
    } else {
        None
    };
    let default_insert = str_eq(item.insert_text.as_str(), item.label.as_str());
    let raw = chars_of(item.insert_text.as_str());
    let ins = if default_insert {
        format_completion_chars(raw.as_slice(), quote)
    } else {
        raw
    };
    let mut s: Vec<char> = Vec::new();
    append_chars(&mut s, cs.as_slice(), 0, i);
    append_chars(&mut s, ins.as_slice(), 0, ins.len());
    let k = s.len();
    append_chars(&mut s, cs.as_slice(), j, cs.len());
    assert(s@ =~= cs@.take(i as int) + ins@ + cs@.skip(j as int));
    let k2 = finish_insert_chars(&mut s, k, quote, default_insert, item.append_space);
    Some((s, k2))
}

proof fn lemma_boundary_unique(cs: Seq<char>, i: int, j: int)
    requires
        0 <= i <= cs.len(),
        0 <= j <= cs.len(),
        byte_pos(cs, i) == byte_pos(cs, j),
    ensures
        i == j,
{
    if i < j {
        lemma_byte_pos_mono(cs, i, j);
    } else if j < i {
        lemma_byte_pos_mono(cs, j, i);
    }
}

/// The character index starting at byte `b` of `cs`, whose encoding is `total`
/// bytes long.
pub(crate) fn char_index_at_byte(cs: &Vec<char>, b: usize, total: usize) -> (r: Option<usize>)
    requires
        total == byte_pos(cs@, cs@.len() as int),
    ensures
        r matches Some(i) ==> char_index_at(cs@, b as int) == Some(i as int),
        r is None ==> char_index_at(cs@, b as int) is None,
{
    let ghost s = cs@;
    let mut i: usize = 0;
    let mut fb: usize = 0;
    assert(s.take(0) =~= Seq::<char>::empty());
    while i < cs.len() && fb < b
        invariant
            s == cs@,
            0 <= i <= s.len(),
            fb == byte_pos(s, i as int),
            total == byte_pos(s, s.len() as int),
            forall|k: int| 0 <= k < i ==> byte_pos(s, k) < b,
        decreases s.len() - i,
    {
        proof {
            lemma_byte_pos_step(s, i as int);
            lemma_byte_pos_mono(s, i + 1, s.len() as int);
        }
        fb = fb + char_width(cs[i]);
        i = i + 1;
    }
    if fb == b {
        proof {
            let c = choose|k: int| 0 <= k <= s.len() && byte_pos(s, k) == b;
            lemma_boundary_unique(s, c, i as int);
        }
        Some(i)
    } else {
        proof {
            assert forall|k: int| 0 <= k <= s.len() implies byte_pos(s, k) != b by {
                if k > i {
                    lemma_byte_pos_mono(s, i as int, k);
                }
            }
        }
        None
    }
}

/// The byte offset of character `k` of `cs`, whose encoding is `total` bytes.
fn byte_offset(cs: &Vec<char>, k: usize, total: usize) -> (r: usize)
    requires
        k <= cs@.len(),
        total == byte_pos(cs@, cs@.len() as int),
    ensures
        r == byte_pos(cs@, k as int),
{
    let ghost s = cs@;
    let mut i: usize = 0;
    let mut fb: usize = 0;
    assert(s.take(0) =~= Seq::<char>::empty());
    while i < k
        invariant
            s == cs@,
            0 <= i <= k <= s.len(),
            fb == byte_pos(s, i as int),
            total == byte_pos(s, s.len() as int),
        decreases k - i,
    {
        proof {
            lemma_byte_pos_step(s, i as int);
            lemma_byte_pos_mono(s, i + 1, s.len() as int);
        }
        fb = fb + char_width(cs[i]);
        i = i + 1;
    }
    fb
}

/// Appends `src[from..to]` to `dst`.
fn append_chars(dst: &mut Vec<char>, src: &[char], from: usize, to: usize)
    requires
        from <= to <= src@.len(),
    ensures
        final(dst)@ == old(dst)@ + src@.subrange(from as int, to as int),
{
    let ghost start = dst@;
    let mut i = from;
    while i < to
        invariant
            from <= i <= to <= src@.len(),
            dst@ == start + src@.subrange(from as int, i as int),
        decreases to - i,
    {
        dst.push(src[i]);
        assert(src@.subrange(from as int, i + 1) =~= src@.subrange(from as int, i as int).push(
            src@[i as int],
        ));
        i = i + 1;
    }
}

/// `text` escaped for use inside `quote` quotes.
pub fn escape_chars(text: &[char], quote: char) -> (r: Vec<char>)
    ensures
        r@ == escape_for_quote(text@, quote),
{
    let mut out: Vec<char> = Vec::new();
    let mut i: usize = 0;
    assert(text@.take(0) =~= Seq::<char>::empty());
    while i < text.len()
        invariant
            0 <= i <= text@.len(),
            out@ == escape_for_quote(text@.take(i as int), quote),
        decreases text@.len() - i,
    {
        let c = text[i];
        let ghost before = out@;
        if c == '\\' || c == quote {
            out.push('\\');
        }
        out.push(c);
        assert(text@.take(i + 1).drop_last() =~= text@.take(i as int));
        assert(out@ =~= escape_for_quote(text@.take(i + 1), quote));
        i = i + 1;
    }
    assert(text@.take(text@.len() as int) =~= text@);
    out
}

/// The text that accepting a default candidate inserts (see
/// [`format_completion_text`]).
pub fn format_completion_chars(text: &[char], quote: Option<char>) -> (r: Vec<char>)
    ensures
        r@ == format_completion_text(text@, quote),
{
    match quote {
        Some(q) => escape_chars(text, q),
        None => {
            let mut i: usize = 0;
            let mut quoted = false;
            while i < text.len()
                invariant
                    0 <= i <= text@.len(),
                    !quoted ==> forall|k: int| 0 <= k < i ==> !needs_quotes(#[trigger] text@[k]),
                    quoted ==> exists|k: int| 0 <= k < text@.len() && needs_quotes(#[trigger] text@[k]),
                decreases text@.len() - i,
            {
                let c = text[i];
                if char_is_whitespace(c) || c == '\\' || c == '\'' || c == '"' {
                    assert(needs_quotes(text@[i as int]));
                    quoted = true;
                }
                i = i + 1;
            }
            if quoted {
                let mut out: Vec<char> = Vec::new();
                out.push('"');
                let inner = escape_chars(text, '"');
                append_chars(&mut out, inner.as_slice(), 0, inner.len());
                out.push('"');
                assert(inner@.subrange(0, inner@.len() as int) =~= inner@);
                assert(out@ =~= seq!['"'] + escape_for_quote(text@, '"') + seq!['"']);
                out
            } else {
                let mut out: Vec<char> = Vec::new();
                append_chars(&mut out, text, 0, text.len());
                assert(out@ =~= text@);
                out
            }
        },
    }
}

impl ConsoleState {
    /// Whether every recalled command has its line link and any browsed
    /// entry exists (see [`state_wf`]).
    pub fn is_consistent(&self) -> (r: bool)
        ensures
            r == state_wf(self@),
    {
        self.cmd_history_line_ids.len() == self.cmd_history.len() && match self.cmd_history_index {
            Some(i) => i < self.cmd_history.len(),
            None => true,
        }
    }

    /// Notes that the input changed, so completions must be refreshed.
    pub fn mark_input_changed(&mut self)
        ensures
            final(self)@ == (StateView { dirty: true, ..old(self)@ }),
    {
        self.completion_dirty = true;
    }

    /// Replaces the input line; completion restarts from the text cursor.
    pub fn replace_input(&mut self, input: String)
        ensures
            final(self)@ == (StateView {
                input: input@,
                completion_cursor: None,
                dirty: true,
                ..old(self)@
            }),
    {
        self.input = input;
        self.completion_cursor = None;
        self.mark_input_changed();
    }

    /// Sets the input line to a value that the text widget already shows.
    pub fn set_input(&mut self, input: String)
        ensures
            final(self)@ == (StateView { input: input@, dirty: true, ..old(self)@ }),
    {
        self.input = input;
        self.mark_input_changed();
    }

    /// The current input line.
    pub fn input(&self) -> (r: &str)
        ensures
            r@ == self@.input,
    {
        self.input.as_str()
    }

    /// Empties the input line.
    pub fn clear_input(&mut self)
        ensures
            final(self)@ == (StateView {
                input: Seq::empty(),
                completion_cursor: None,
                dirty: true,
                ..old(self)@
            }),
    {
        self.input = String::new();
        self.completion_cursor = None;
        self.mark_input_changed();
    }

    /// Replaces the input with the newest recalled command that contains it,
    /// ignoring ASCII case; leaves the state alone when none does.
    pub fn recall_history_matching_input(&mut self)
        ensures
            final(self)@ == recalled(old(self)@),
    {
        let needle = to_ascii_lowercase(self.input.as_str());
        let needle_chars = crate::text::chars_of(needle.as_str());
        let ghost hist = self@.history;
        let ghost o = self@;
        let mut end = self.cmd_history.len();
        while end > 0
            invariant
                self@ == o,
                o == old(self)@,
                end <= self.cmd_history@.len(),
                hist == self@.history,
                hist == self.cmd_history@.map_values(|s: String| s@),
                needle_chars@ == lower_seq(self.input@),
                last_containing(hist, needle_chars@, hist.len() as int) == last_containing(
                    hist,
                    needle_chars@,
                    end as int,
                ),
            decreases end,
        {
            let lowered = to_ascii_lowercase(self.cmd_history[end - 1].as_str());
            let lowered_chars = crate::text::chars_of(lowered.as_str());
            assert(lowered_chars@ == lower_seq(hist[end - 1]));
            if chars_contains(lowered_chars.as_slice(), needle_chars.as_slice()) {
                let command = self.cmd_history[end - 1].clone();
                assert(command@ == hist[end - 1]);
                self.replace_input(command);
                return;
            }
            end = end - 1;
        }
    }

    /// Adds a submitted command to recall, keeping at most `limit` commands.
    /// Repeating the newest command adds nothing. Either way the newest entry
    /// awaits its echo.
    pub fn record_command(&mut self, command: String, limit: usize)
        requires
            old(self)@.line_ids.len() == old(self)@.history.len(),
        ensures
            final(self)@ == recorded(old(self)@, command@, limit),
            final(self)@.line_ids.len() == final(self)@.history.len(),
    {
        let ghost o = self@;
        let n = self.cmd_history.len();
        if n > 0 && str_eq(self.cmd_history[n - 1].as_str(), command.as_str()) {
            self.pending_history_index = Some(n - 1);
            return;
        }
        let ghost cv = command@;
        self.cmd_history.push(command);
        self.cmd_history_line_ids.push(None);
        assert(self@.history =~= o.history.push(cv));
        let len = self.cmd_history.len();
        if len > limit {
            let excess = len - limit;
            drop_front(&mut self.cmd_history, excess);
            drop_front(&mut self.cmd_history_line_ids, excess);
        }
        assert(self@.history =~= keep_last(o.history.push(cv), limit as nat));
        assert(self@.line_ids =~= keep_last(o.line_ids.push(None), limit as nat));
        let kept = self.cmd_history.len();
        self.pending_history_index = if kept > 0 {
            Some(kept - 1)
        } else {
            None
        };
        self.command_history_revision = self.command_history_revision.wrapping_add(1);
    }

    /// Takes the index awaiting its echo when it names `command`; an echo of
    /// another command leaves it waiting.
    pub fn take_pending_history_index(&mut self, command: &str) -> (r: Option<usize>)
        ensures
            r == (match old(self)@.pending {
                Some(i) => if i < old(self)@.history.len() && old(self)@.history[i as int]
                    == command@ {
                    Some(i)
                } else {
                    None
                },
                None => None,
            }),
            final(self)@ == if r is Some {
                StateView { pending: None, ..old(self)@ }
            } else {
                old(self)@
            },
    {
        let index = match self.pending_history_index {
            Some(i) => i,
            None => {
                return None;
            },
        };
        if index < self.cmd_history.len() && str_eq(self.cmd_history[index].as_str(), command) {
            self.pending_history_index = None;
            Some(index)
        } else {
            None
        }
    }

    /// Links recall entry `index` to the output line that echoed it.
    pub fn set_history_line_id(&mut self, index: usize, line_id: u64)
        ensures
            final(self)@ == (StateView {
                line_ids: if index < old(self)@.line_ids.len() {
                    old(self)@.line_ids.update(index as int, Some(line_id))
                } else {
                    old(self)@.line_ids
                },
                ..old(self)@
            }),
    {
        if index < self.cmd_history_line_ids.len() {
            self.cmd_history_line_ids.set(index, Some(line_id));
        }
    }

    /// The echo line of the recall entry being browsed, if known.
    pub fn selected_history_line_id(&self) -> (r: Option<u64>)
        ensures
            r == (match self@.history_index {
                Some(i) => if i < self@.line_ids.len() {
                    self@.line_ids[i as int]
                } else {
                    None
                },
                None => None,
            }),
    {
        match self.cmd_history_index {
            Some(i) => if i < self.cmd_history_line_ids.len() {
                self.cmd_history_line_ids[i]
            } else {
                None
            },
            None => None,
        }
    }

    /// Forgets every recalled command and marks persisted recall stale.
    pub fn clear_command_history(&mut self)
        ensures
            final(self)@ == (StateView {
                history: Seq::empty(),
                line_ids: Seq::empty(),
                history_index: None,
                draft: Seq::empty(),
                pending: None,
                revision: next_revision(old(self)@.revision),
                ..old(self)@
            }),
    {
        self.cmd_history = Vec::new();
        self.cmd_history_line_ids = Vec::new();
        self.cmd_history_index = None;
        self.cmd_history_draft = String::new();
        self.pending_history_index = None;
        self.command_history_revision = self.command_history_revision.wrapping_add(1);
        assert(self@.history =~= Seq::<Seq<char>>::empty());
    }

    /// Replaces recall with the newest `limit` of `commands`, none linked to an
    /// output line.
    pub fn restore_command_history(&mut self, commands: Vec<String>, limit: usize)
        ensures
            final(self)@ == (StateView {
                history: keep_last(commands@.map_values(|s: String| s@), limit as nat),
                line_ids: Seq::new(
                    keep_last(commands@.map_values(|s: String| s@), limit as nat).len(),
                    |i: int| None,
                ),
                revision: 0,
                ..old(self)@
            }),
    {
        let ghost cv = commands@.map_values(|s: String| s@);
        let mut commands = commands;
        if commands.len() > limit {
            let keep_from = commands.len() - limit;
            drop_front(&mut commands, keep_from);
        }
        assert(commands@.map_values(|s: String| s@) =~= keep_last(cv, limit as nat));
        let mut ids: Vec<Option<u64>> = Vec::new();
        let mut k: usize = 0;
        while k < commands.len()
            invariant
                0 <= k <= commands.len(),
                ids@ == Seq::new(k as nat, |i: int| None::<u64>),
            decreases commands.len() - k,
        {
            ids.push(None);
            assert(ids@ =~= Seq::new((k + 1) as nat, |i: int| None::<u64>));
            k = k + 1;
        }
        self.cmd_history = commands;
        self.cmd_history_line_ids = ids;
        self.command_history_revision = 0;
    }

    /// The recalled commands, oldest first.
    pub fn command_history(&self) -> (r: &[String])
        ensures
            r@.map_values(|s: String| s@) == self@.history,
    {
        self.cmd_history.as_slice()
    }

    /// Installs fresh candidates and selects the first.
    pub fn set_completions(&mut self, items: Vec<CompletionItem>, overflow: usize)
        ensures
            final(self)@ == (StateView {
                items: items@.map_values(|i: CompletionItem| i@),
                overflow,
                match_index: 0,
                dirty: false,
                ..old(self)@
            }),
    {
        self.completion_items = items;
        self.completion_overflow = overflow;
        self.match_index = 0;
        self.completion_dirty = false;
    }

    /// Moves the highlight one candidate back, wrapping to the last.
    pub fn select_previous_completion(&mut self)
        ensures
            ({
                let o = old(self)@;
                if o.items.len() == 0 {
                    final(self)@ == o
                } else {
                    final(self)@ == (StateView {
                        match_index: ((o.match_index + o.items.len() - 1) % (o.items.len() as int))
                            as usize,
                        ..o
                    })
                }
            }),
    {
        let n = self.completion_items.len();
        if n > 0 {
            let m = self.match_index % n;
            let next = if m == 0 {
                n - 1
            } else {
                m - 1
            };
            assert(next as int == (m + n - 1) % (n as int)) by {
                if m == 0 {
                    vstd::arithmetic::div_mod::lemma_small_mod((n - 1) as nat, n as nat);
                } else {
                    vstd::arithmetic::div_mod::lemma_mod_add_multiples_vanish(m - 1, n as int);
                    vstd::arithmetic::div_mod::lemma_small_mod((m - 1) as nat, n as nat);
                }
            }
            proof {
                let a = self.match_index as int;
                let l = n as int;
                assert((a % l + l - 1) % l == (a + l - 1) % l) by {
                    vstd::arithmetic::div_mod::lemma_add_mod_noop(a, l - 1, l);
                    vstd::arithmetic::div_mod::lemma_mod_twice(a, l);
                    vstd::arithmetic::div_mod::lemma_add_mod_noop(a % l, l - 1, l);
                }
            }
            self.match_index = next;
        }
    }

    /// Moves the highlight one candidate on, wrapping to the first.
    pub fn select_next_completion(&mut self)
        ensures
            ({
                let o = old(self)@;
                if o.items.len() == 0 {
                    final(self)@ == o
                } else {
                    final(self)@ == (StateView {
                        match_index: ((o.match_index + 1) % (o.items.len() as int)) as usize,
                        ..o
                    })
                }
            }),
    {
        let n = self.completion_items.len();
        if n > 0 {
            let m = self.match_index % n;
            let next = (m + 1) % n;
            proof {
                let a = self.match_index as int;
                let l = n as int;
                assert((a % l + 1) % l == (a + 1) % l) by {
                    vstd::arithmetic::div_mod::lemma_add_mod_noop(a, 1, l);
                    vstd::arithmetic::div_mod::lemma_mod_twice(a, l);
                    vstd::arithmetic::div_mod::lemma_add_mod_noop(a % l, 1, l);
                }
            }
            self.match_index = next;
        }
    }

    /// The candidates on the page that holds the highlighted one, `page_size`
    /// to a page; empty when there are none or pages hold nothing.
    pub fn completion_page_range(&self, page_size: usize) -> (r: Range<usize>)
        ensures
            (r.start as int, r.end as int) == page_range(
                self.match_index as int,
                self.completion_items@.len() as int,
                page_size as int,
            ),
    {
        let n = self.completion_items.len();
        if page_size == 0 || n == 0 {
            return 0..0;
        }
        let selected = if self.match_index < n - 1 {
            self.match_index
        } else {
            n - 1
        };
        let q = selected / page_size;
        assert(q * page_size <= selected) by (nonlinear_arith)
            requires
                page_size > 0,
                q == selected / page_size,
        ;
        let start = q * page_size;
        let end = if n - start > page_size {
            start + page_size
        } else {
            n
        };
        start..end
    }

    /// Accepts the highlighted candidate: its text replaces the candidate's
    /// byte range of the input, and the new cursor byte offset is returned.
    /// Nothing changes when there is no highlighted candidate or its range is
    /// not a valid range of character boundaries of the input.
    pub fn apply_selected_completion(&mut self) -> (r: Option<usize>)
        ensures
            ({
                let o = old(self)@;
                let edit = selected_edit(o);
                match edit {
                    Some((s, k)) => {
                        &&& r == Some(byte_pos(s, k) as usize)
                        &&& byte_pos(s, k) <= usize::MAX
                        &&& final(self)@ == (StateView {
                            input: s,
                            completion_cursor: r,
                            dirty: true,
                            ..o
                        })
                    },
                    None => r is None && final(self)@ == o,
                }
            }),
    {
        let ghost o = self@;
        let m = self.match_index;
        if m >= self.completion_items.len() {
            return None;
        }
        let item = self.completion_items[m].clone();
        assert(item@ == o.items[m as int]);
        let cs = chars_of(self.input.as_str());
        let in_str = self.input.as_str();
        let total = in_str.as_bytes().len();
        proof {
            lemma_str_len(in_str);
        }
        let (s, k) = match completion_edit_chars(&cs, &item, total) {
            Some(e) => e,
            None => {
                return None;
            },
        };
        let new_input = string_from_chars(s.as_slice());
        let new_str = new_input.as_str();
        let new_total = new_str.as_bytes().len();
        proof {
            lemma_str_len(new_str);
        }
        let cursor = byte_offset(&s, k, new_total);
        self.input = new_input;
        self.completion_cursor = Some(cursor);
        self.mark_input_changed();
        Some(cursor)
    }

    /// Drops every candidate.
    pub fn clear_completions(&mut self)
        ensures
            final(self)@ == (StateView {
                items: Seq::empty(),
                overflow: 0,
                match_index: 0,
                completion_cursor: None,
                dirty: false,
                ..old(self)@
            }),
    {
        self.completion_items = Vec::new();
        self.completion_overflow = 0;
        self.match_index = 0;
        self.completion_cursor = None;
        self.completion_dirty = false;
        assert(self@.items =~= Seq::<ItemView>::empty());
    }
}

impl Default for ConsoleState {
    fn default() -> (r: Self)
        ensures
            r@ == (StateView {
                enabled: true,
                open: false,
                input: Seq::empty(),
                items: Seq::empty(),
                overflow: 0,
                match_index: 0,
                dirty: false,
                completion_cursor: None,
                scroll_follow: true,
                history: Seq::empty(),
                line_ids: Seq::empty(),
                history_index: None,
                draft: Seq::empty(),
                pending: None,
                revision: 0,
            }),
    {
        let r = ConsoleState {
            enabled: true,
            open: false,
            input: String::new(),
            completion_items: Vec::new(),
            completion_overflow: 0,
            match_index: 0,
            completion_dirty: false,
            completion_cursor: None,
            scroll_follow: true,
            cmd_history: Vec::new(),
            cmd_history_line_ids: Vec::new(),
            cmd_history_index: None,
            cmd_history_draft: String::new(),
            pending_history_index: None,
            command_history_revision: 0,
        };
        assert(r@.items =~= Seq::<ItemView>::empty());
        assert(r@.history =~= Seq::<Seq<char>>::empty());
        r
    }
}

/// The suggestion page holds the highlighted candidate (or the last one, when
/// the highlight is past the end), starts at a multiple of the page size, and
/// holds at most a page of candidates.
pub proof fn law_page_holds_selection(selected: int, len: int, page: int)
    requires
        len > 0,
        page > 0,
        selected >= 0,
    ensures
        ({
            let (start, end) = page_range(selected, len, page);
            let sel = if selected < len - 1 {
                selected
            } else {
                len - 1
            };
            &&& 0 <= start <= sel < end <= len
            &&& end - start <= page
            &&& start % page == 0
        }),
{
    let sel = if selected < len - 1 {
        selected
    } else {
        len - 1
    };
    let start = sel / page * page;
    assert(start <= sel < start + page && start % page == 0 && start >= 0) by (nonlinear_arith)
        requires
            page > 0,
            sel >= 0,
            start == sel / page * page,
    ;
}

/// Accepting a candidate leaves the cursor inside the new input.
pub proof fn law_accepted_cursor_in_input(cs: Seq<char>, item: ItemView)
    ensures
        completion_edit(cs, item) matches Some((s, k)) ==> 0 <= k <= s.len() && byte_pos(s, k)
            <= utf8_len(s),
{
    if let Some((s, k)) = completion_edit(cs, item) {
        let i = char_index_at(cs, item.replace_start as int)->0;
        let j = char_index_at(cs, item.replace_end as int)->0;
        assert(0 <= i <= cs.len() && 0 <= j <= cs.len());
        if j < i {
            lemma_byte_pos_mono(cs, j, i);
        }
        assert(0 <= k <= s.len());
        lemma_byte_pos_mono(s, k, s.len() as int);
        assert(s.take(s.len() as int) =~= s);
    }
}

/// Escaping a concatenation escapes each part.
proof fn lemma_escape_concat(a: Seq<char>, b: Seq<char>, q: char)
    ensures
        escape_for_quote(a + b, q) == escape_for_quote(a, q) + escape_for_quote(b, q),
    decreases b.len(),
{
    if b.len() == 0 {
        assert(a + b =~= a);
        assert(escape_for_quote(a, q) + escape_for_quote(b, q) =~= escape_for_quote(a, q));
    } else {
        assert((a + b).drop_last() =~= a + b.drop_last());
        assert((a + b).last() == b.last());
        lemma_escape_concat(a, b.drop_last(), q);
    }
}

/// Plain text that needs no quotes reads back unchanged up to the white space
/// or end that follows it.
proof fn lemma_scan_plain(cs: Seq<char>, k: int, t: Seq<char>)
    requires
        0 <= k,
        k + t.len() <= cs.len(),
        cs.subrange(k, k + t.len()) == t,
        forall|i: int| 0 <= i < t.len() ==> !needs_quotes(#[trigger] t[i]),
        k + t.len() == cs.len() || is_space(cs[k + t.len()]),
    ensures
        scan(cs, None, k, false).value == t,
    decreases t.len(),
{
    if t.len() == 0 {
        assert(t =~= Seq::<char>::empty());
    } else {
        assert(cs[k] == t[0]);
        assert(!needs_quotes(t[0]));
        assert(cs.subrange(k + 1, k + t.len()) =~= t.drop_first());
        assert forall|i: int| 0 <= i < t.drop_first().len() implies !needs_quotes(
            #[trigger] t.drop_first()[i],
        ) by {
            assert(t.drop_first()[i] == t[i + 1]);
        }
        lemma_scan_plain(cs, k + 1, t.drop_first());
        assert(seq![t[0]] + t.drop_first() =~= t);
    }
}

/// The character that opens and closes a token quoted with `q`.
pub open spec fn quote_char(q: QuoteStyle) -> char {
    match q {
        QuoteStyle::Single => '\'',
        QuoteStyle::Double => '"',
    }
}

/// Text escaped for quote `q` and followed by that quote reads back as the
/// text.
proof fn lemma_scan_escaped(cs: Seq<char>, k: int, t: Seq<char>, q: QuoteStyle)
    requires
        0 <= k,
        k + escape_for_quote(t, quote_char(q)).len() < cs.len(),
        cs.subrange(k, k + escape_for_quote(t, quote_char(q)).len()) == escape_for_quote(t, quote_char(q)),
        cs[k + escape_for_quote(t, quote_char(q)).len()] == quote_char(q),
    ensures
        scan(cs, Some(q), k, false).value == t,
    decreases t.len(),
{
    let qc = quote_char(q);
    let e = escape_for_quote(t, qc);
    if t.len() == 0 {
        assert(cs[k] == qc);
    } else {
        let c = t[0];
        let tail = t.drop_first();
        assert(seq![c] + tail =~= t);
        assert(seq![c].drop_last() =~= Seq::<char>::empty());
        assert(escape_for_quote(Seq::<char>::empty(), qc) =~= Seq::<char>::empty());
        lemma_escape_concat(seq![c], tail, qc);
        let et = escape_for_quote(tail, qc);
        if c == '\\' || c == qc {
            assert(escape_for_quote(seq![c], qc) =~= seq!['\\', c]);
            assert(e =~= seq!['\\', c] + et);
            assert(cs[k] == e[0]);
            assert(cs[k + 1] == e[1]);
            assert(cs.subrange(k + 2, k + 2 + et.len()) =~= et) by {
                assert forall|i: int| 0 <= i < et.len() implies cs.subrange(k + 2, k + 2 + et.len())[i]
                    == et[i] by {
                    assert(cs.subrange(k, k + e.len())[i + 2] == e[i + 2]);
                }
            }
            lemma_scan_escaped(cs, k + 2, tail, q);
            assert(scan(cs, Some(q), k + 1, true).value == seq![c] + scan(cs, Some(q), k + 2, false).value);
            assert(scan(cs, Some(q), k, false).value == scan(cs, Some(q), k + 1, true).value);
        } else {
            assert(escape_for_quote(seq![c], qc) =~= seq![c]);
            assert(e =~= seq![c] + et);
            assert(cs[k] == e[0]);
            assert(cs.subrange(k + 1, k + 1 + et.len()) =~= et) by {
                assert forall|i: int| 0 <= i < et.len() implies cs.subrange(k + 1, k + 1 + et.len())[i]
                    == et[i] by {
                    assert(cs.subrange(k, k + e.len())[i + 1] == e[i + 1]);
                }
            }
            lemma_scan_escaped(cs, k + 1, tail, q);
            assert(!closes(Some(q), c)) by {
                match q {
                    QuoteStyle::Single => {},
                    QuoteStyle::Double => {},
                }
            }
            assert(scan(cs, Some(q), k, false).value == seq![c] + scan(cs, Some(q), k + 1, false).value);
        }
    }
}

/// A candidate inserted as completion formats it, where a token starts and
/// followed by white space or the end of the input, reads back as the
/// candidate: the token starting there has the candidate as its value.
pub proof fn law_completion_text_reads_back(prefix: Seq<char>, t: Seq<char>, rest: Seq<char>)
    requires
        t.len() > 0,
        rest.len() == 0 || is_space(rest[0]),
    ensures
        token_view(prefix + format_completion_text(t, None) + rest, prefix.len() as int).value == t,
{
    let f = format_completion_text(t, None);
    let cs = prefix + f + rest;
    let k = prefix.len() as int;
    if exists|i: int| 0 <= i < t.len() && needs_quotes(#[trigger] t[i]) {
        let e = escape_for_quote(t, '"');
        assert(f == seq!['"'] + e + seq!['"']);
        assert(cs[k] == '"');
        assert(cs.subrange(k + 1, k + 1 + e.len()) =~= e);
        assert(cs[k + 1 + e.len()] == '"');
        lemma_scan_escaped(cs, k + 1, t, QuoteStyle::Double);
    } else {
        assert(f == t);
        assert(cs[k] == t[0]);
        assert(!needs_quotes(t[0]));
        assert(cs.subrange(k, k + t.len()) =~= t);
        if rest.len() > 0 {
            assert(cs[k + t.len()] == rest[0]);
        }
        lemma_scan_plain(cs, k, t);
    }
}

/// Inside a token opened with quote `q`, a candidate escaped as completion
/// formats it and followed by the closing quote reads back as the candidate.
pub proof fn law_quoted_completion_reads_back(prefix: Seq<char>, q: QuoteStyle, t: Seq<char>, rest: Seq<char>)
    ensures
        token_view(
            prefix + seq![quote_char(q)] + format_completion_text(t, Some(quote_char(q))) + seq![quote_char(q)]
                + rest,
            prefix.len() as int,
        ).value == t,
{
    let qc = quote_char(q);
    let e = escape_for_quote(t, qc);
    let cs = prefix + seq![qc] + e + seq![qc] + rest;
    let k = prefix.len() as int;
    assert(cs[k] == qc);
    assert(cs.subrange(k + 1, k + 1 + e.len()) =~= e);
    assert(cs[k + 1 + e.len()] == qc);
    lemma_scan_escaped(cs, k + 1, t, q);
}

proof fn lemma_last_containing(history: Seq<Seq<char>>, needle: Seq<char>, end: int)
    requires
        0 <= end <= history.len(),
    ensures
        match last_containing(history, needle, end) {
            Some(i) => i < end && contains_seq(lower_seq(history[i as int]), needle) && forall|j: int|
                i < j < end ==> !contains_seq(lower_seq(#[trigger] history[j]), needle),
            None => forall|j: int| 0 <= j < end ==> !contains_seq(lower_seq(#[trigger] history[j]), needle),
        },
    decreases end,
{
    if end > 0 && !contains_seq(lower_seq(history[end - 1]), needle) {
        lemma_last_containing(history, needle, end - 1);
    }
}

/// Searching recall brings back the newest matching command: when some
/// recalled command contains the input, ignoring ASCII case, the input
/// becomes a command that contains it and no newer command contains it; when
/// none does, nothing changes.
pub proof fn law_recall_finds_newest(o: StateView)
    ensures
        ({
            let s = recalled(o);
            let n = lower_seq(o.input);
            let h = o.history;
            &&& (exists|i: int| 0 <= i < h.len() && contains_seq(lower_seq(#[trigger] h[i]), n)) ==> exists|i: int|
                0 <= i < h.len() && contains_seq(lower_seq(#[trigger] h[i]), n) && s.input == h[i] && forall|j: int|
                    i < j < h.len() ==> !contains_seq(lower_seq(#[trigger] h[j]), n)
            &&& (forall|i: int| 0 <= i < h.len() ==> !contains_seq(lower_seq(#[trigger] h[i]), n)) ==> s == o
        }),
{
    let n = lower_seq(o.input);
    let h = o.history;
    lemma_last_containing(h, n, h.len() as int);
    match last_containing(h, n, h.len() as int) {
        Some(i) => {
            assert(contains_seq(lower_seq(h[i as int]), n));
        },
        None => {},
    }
}

} // verus!
