//! The plain-text transcript format that saves command recall and output rows
//! between runs, and restoring the console from it.
//!
//! Each row is a kind, a tab, the escaped text and a newline. `H` rows are
//! recalled commands, `C` rows command echoes, and `T`, `D`, `I`, `W`, `E`
//! output rows at each level. Backslash, newline, carriage return and tab are
//! escaped as `\\`, `\n`, `\r` and `\t`.

use crate::buffer::{keep_last, ConsoleBuffer, ConsoleLevel, ConsoleLineSource, LineSourceView, LineView};
use crate::buffer::{appended_lines, pushed, BufferView};
use crate::parser::{spec_parse_at, ParsedInput};
use crate::state::{ConsoleState, StateView};
use crate::text::{append_str, cat, chars_of, copy_str, lines_of, push_char, split_lines, string_from_chars, utf8_len};
use vstd::prelude::*;

verus! {

broadcast use vstd::string::group_string_axioms;

/// The escaped form of one character.
pub open spec fn encode_char(c: char) -> Seq<char> {
    if c == '\\' {
        seq!['\\', '\\']
    } else if c == '\n' {
        seq!['\\', 'n']
    } else if c == '\r' {
        seq!['\\', 'r']
    } else if c == '\t' {
        seq!['\\', 't']
    } else {
        seq![c]
    }
}

/// `t` with backslash, newline, carriage return and tab escaped.
pub open spec fn encode(t: Seq<char>) -> Seq<char>
    decreases t.len(),
{
    if t.len() == 0 {
        Seq::empty()
    } else {
        encode_char(t[0]) + encode(t.drop_first())
    }
}

/// The character an escape letter stands for.
pub open spec fn unescape(c: char) -> Option<char> {
    if c == '\\' {
        Some('\\')
    } else if c == 'n' {
        Some('\n')
    } else if c == 'r' {
        Some('\r')
    } else if c == 't' {
        Some('\t')
    } else {
        None
    }
}

/// The text that `e` encodes, or `None` for a dangling or unknown escape.
pub open spec fn decode(e: Seq<char>) -> Option<Seq<char>>
    decreases e.len(),
{
    if e.len() == 0 {
        Some(Seq::empty())
    } else if e[0] != '\\' {
        match decode(e.drop_first()) {
            Some(r) => Some(seq![e[0]] + r),
            None => None,
        }
    } else if e.len() < 2 {
        None
    } else {
        match unescape(e[1]) {
            None => None,
            Some(x) => match decode(e.skip(2)) {
                Some(r) => Some(seq![x] + r),
                None => None,
            },
        }
    }
}

/// Escaping appends: the escape of `s` then `c` is the escape of `s` followed
/// by the escape of `c`.
pub proof fn lemma_encode_push(s: Seq<char>, c: char)
    ensures
        encode(s.push(c)) == encode(s) + encode_char(c),
    decreases s.len(),
{
    if s.len() == 0 {
        assert(s.push(c).drop_first() =~= Seq::<char>::empty());
        assert(s.push(c)[0] == c);
        assert(encode(Seq::<char>::empty()) == Seq::<char>::empty());
        assert(encode(s) == Seq::<char>::empty());
        assert(encode(s.push(c)) =~= encode_char(c) + encode(Seq::<char>::empty()));
        assert(encode_char(c) + Seq::<char>::empty() =~= encode_char(c));
    } else {
        assert(s.push(c).drop_first() =~= s.drop_first().push(c));
        lemma_encode_push(s.drop_first(), c);
        assert(encode(s.push(c)) =~= encode(s) + encode_char(c));
    }
}

/// Decoding undoes encoding: every text survives a save and a load.
pub proof fn lemma_decode_encode(t: Seq<char>)
    ensures
        decode(encode(t)) == Some(t),
    decreases t.len(),
{
    if t.len() > 0 {
        let c = t[0];
        let rest = t.drop_first();
        lemma_decode_encode(rest);
        let e = encode(t);
        assert(e == encode_char(c) + encode(rest));
        if c == '\\' || c == '\n' || c == '\r' || c == '\t' {
            assert(e[0] == '\\');
            assert(e.skip(2) =~= encode(rest));
        } else {
            assert(e.drop_first() =~= encode(rest));
        }
        assert(seq![c] + rest =~= t);
    } else {
        assert(encode(t) =~= Seq::<char>::empty());
        assert(t =~= Seq::<char>::empty());
    }
}

/// An escaped text holds no tab and no line break.
pub proof fn lemma_encode_plain(t: Seq<char>)
    ensures
        forall|i: int|
            0 <= i < encode(t).len() ==> #[trigger] encode(t)[i] != '\t' && encode(t)[i] != '\n'
                && encode(t)[i] != '\r',
    decreases t.len(),
{
    if t.len() > 0 {
        lemma_encode_plain(t.drop_first());
        let a = encode_char(t[0]);
        let b = encode(t.drop_first());
        assert forall|i: int| 0 <= i < encode(t).len() implies #[trigger] encode(t)[i] != '\t'
            && encode(t)[i] != '\n' && encode(t)[i] != '\r' by {
            if i >= a.len() {
                assert(encode(t)[i] == b[i - a.len()]);
            }
        }
    }
}

/// `text` escaped for the transcript (see [`encode`]).
pub fn encode_text(text: &str) -> (r: String)
    ensures
        r@ == encode(text@),
{
    let cs = chars_of(text);
    let mut out = String::new();
    let mut i: usize = 0;
    assert(cs@.take(0) =~= Seq::<char>::empty());
    while i < cs.len()
        invariant
            0 <= i <= cs@.len(),
            cs@ == text@,
            out@ == encode(cs@.take(i as int)),
        decreases cs@.len() - i,
    {
        let c = cs[i];
        if c == '\\' {
            append_str(&mut out, "\\\\");
        } else if c == '\n' {
            append_str(&mut out, "\\n");
        } else if c == '\r' {
            append_str(&mut out, "\\r");
        } else if c == '\t' {
            append_str(&mut out, "\\t");
        } else {
            push_char(&mut out, c);
        }
        proof {
            reveal_strlit("\\\\");
            reveal_strlit("\\n");
            reveal_strlit("\\r");
            reveal_strlit("\\t");
            assert("\\\\"@ =~= seq!['\\', '\\']);
            assert("\\n"@ =~= seq!['\\', 'n']);
            assert("\\r"@ =~= seq!['\\', 'r']);
            assert("\\t"@ =~= seq!['\\', 't']);
            assert(cs@.take(i + 1) =~= cs@.take(i as int).push(c));
            lemma_encode_push(cs@.take(i as int), c);
        }
        i = i + 1;
    }
    assert(cs@.take(cs@.len() as int) =~= cs@);
    out
}

/// The text `encoded` stands for, or `None` when it holds a dangling or
/// unknown escape (see [`decode`]).
pub fn decode_text(encoded: &str) -> (r: Option<String>)
    ensures
        match decode(encoded@) {
            Some(t) => r matches Some(s) && s@ == t,
            None => r is None,
        },
{
    let cs = chars_of(encoded);
    let ghost e = cs@;
    let mut out = String::new();
    let mut i: usize = 0;
    assert(e.skip(0) =~= e);
    assert(decode(e) == match decode(e.skip(0)) {
        Some(r) => Some(out@ + r),
        None => None::<Seq<char>>,
    }) by {
        assert(out@ =~= Seq::<char>::empty());
        if let Some(r) = decode(e) {
            assert(out@ + r =~= r);
        }
    }
    while i < cs.len()
        invariant
            0 <= i <= e.len(),
            e == cs@,
            e == encoded@,
            decode(e) == match decode(e.skip(i as int)) {
                Some(r) => Some(out@ + r),
                None => None::<Seq<char>>,
            },
        decreases e.len() - i,
    {
        let c = cs[i];
        let ghost rest = e.skip(i as int);
        if c != '\\' {
            assert(rest.drop_first() =~= e.skip(i + 1));
            let ghost before = out@;
            push_char(&mut out, c);
            proof {
                if let Some(r) = decode(e.skip(i + 1)) {
                    assert(before + (seq![c] + r) =~= out@ + r);
                }
            }
            i = i + 1;
        } else {
            if i + 1 >= cs.len() {
                return None;
            }
            let x = cs[i + 1];
            let d = if x == '\\' {
                '\\'
            } else if x == 'n' {
                '\n'
            } else if x == 'r' {
                '\r'
            } else if x == 't' {
                '\t'
            } else {
                return None;
            };
            assert(unescape(x) == Some(d));
            assert(rest.skip(2) =~= e.skip(i + 2));
            let ghost before = out@;
            push_char(&mut out, d);
            proof {
                if let Some(r) = decode(e.skip(i + 2)) {
                    assert(before + (seq![d] + r) =~= out@ + r);
                }
            }
            i = i + 2;
        }
    }
    assert(e.skip(i as int) =~= Seq::<char>::empty());
    assert(out@ + Seq::<char>::empty() =~= out@);
    Some(out)
}

/// `t` cut to at most `max` characters, when there is a limit.
pub open spec fn truncated(t: Seq<char>, max: Option<usize>) -> Seq<char> {
    match max {
        Some(m) => if t.len() > m {
            t.take(m as int)
        } else {
            t
        },
        None => t,
    }
}

/// `text` cut to at most `max_line_length` characters (see [`truncated`]).
pub fn truncate_text(text: &str, max_line_length: Option<usize>) -> (r: String)
    ensures
        r@ == truncated(text@, max_line_length),
{
    let cs = chars_of(text);
    match max_line_length {
        Some(m) => if cs.len() > m {
            crate::text::string_from_chars(&cs.as_slice()[0..m])
        } else {
            crate::text::copy_str(text)
        },
        None => crate::text::copy_str(text),
    }
}

/// The row kind of an output line at `level`.
pub open spec fn level_kind(level: ConsoleLevel) -> Seq<char> {
    match level {
        ConsoleLevel::Trace => seq!['T'],
        ConsoleLevel::Debug => seq!['D'],
        ConsoleLevel::Info => seq!['I'],
        ConsoleLevel::Warn => seq!['W'],
        ConsoleLevel::Error => seq!['E'],
    }
}

/// The row kind of an output line at `level`.
pub fn output_kind(level: ConsoleLevel) -> (r: &'static str)
    ensures
        r@ == level_kind(level),
{
    proof {
        reveal_strlit("T");
        reveal_strlit("D");
        reveal_strlit("I");
        reveal_strlit("W");
        reveal_strlit("E");
    }
    match level {
        ConsoleLevel::Trace => "T",
        ConsoleLevel::Debug => "D",
        ConsoleLevel::Info => "I",
        ConsoleLevel::Warn => "W",
        ConsoleLevel::Error => "E",
    }
}

/// What is written to the transcript.
#[derive(Debug, Clone, Copy, PartialEq, Eq, Structural)]
pub struct PersistenceSettings {
    /// Maximum transcript rows written.
    pub max_saved_lines: usize,
    /// Save command recall without any transcript rows.
    pub recall_only: bool,
    /// Maximum character length of each saved output row; `None` keeps rows whole.
    pub max_line_length: Option<usize>,
}

impl Default for PersistenceSettings {
    fn default() -> (r: Self)
        ensures
            r == (PersistenceSettings { max_saved_lines: 256, recall_only: false, max_line_length: None }),
    {
        PersistenceSettings { max_saved_lines: 256, recall_only: false, max_line_length: None }
    }
}

/// One transcript row: kind, tab, escaped text, newline.
pub open spec fn row(kind: Seq<char>, text: Seq<char>) -> Seq<char> {
    kind + seq!['\t'] + encode(text) + seq!['\n']
}

/// The rows of the recalled commands, oldest first.
pub open spec fn history_rows(h: Seq<Seq<char>>) -> Seq<char>
    decreases h.len(),
{
    if h.len() == 0 {
        Seq::empty()
    } else {
        history_rows(h.drop_last()) + row(seq!['H'], h.last())
    }
}

/// An echo line's text without its `> ` prompt.
pub open spec fn strip_prompt(t: Seq<char>) -> Seq<char> {
    if t.len() >= 2 && t[0] == '>' && t[1] == ' ' {
        t.skip(2)
    } else {
        t
    }
}

/// The row of one output line: echoes as `C` rows without their prompt,
/// other lines by level; each cut to the row length limit.
pub open spec fn line_row(l: LineView, max_len: Option<usize>) -> Seq<char> {
    match l.source {
        LineSourceView::CommandEcho { .. } => row(seq!['C'], truncated(strip_prompt(l.text), max_len)),
        _ => row(level_kind(l.level), truncated(l.text, max_len)),
    }
}

/// The rows of output lines, in order.
pub open spec fn line_rows(ls: Seq<LineView>, max_len: Option<usize>) -> Seq<char>
    decreases ls.len(),
{
    if ls.len() == 0 {
        Seq::empty()
    } else {
        line_rows(ls.drop_last(), max_len) + line_row(ls.last(), max_len)
    }
}

/// The transcript of recall `h` and output `lines`: every recalled command,
/// then, unless only recall is saved, the newest `max_saved_lines` lines.
pub open spec fn transcript(h: Seq<Seq<char>>, lines: Seq<LineView>, settings: PersistenceSettings) -> Seq<char> {
    history_rows(h) + if settings.recall_only {
        Seq::empty()
    } else {
        line_rows(keep_last(lines, settings.max_saved_lines as nat), settings.max_line_length)
    }
}

/// Appends one row.
fn push_row(out: &mut String, kind: &str, text: &str)
    ensures
        final(out)@ == old(out)@ + row(kind@, text@),
{
    append_str(out, kind);
    push_char(out, '\t');
    let e = encode_text(text);
    append_str(out, e.as_str());
    push_char(out, '\n');
    assert(final(out)@ =~= old(out)@ + row(kind@, text@));
}

/// The echo text without its `> ` prompt (see [`strip_prompt`]).
fn strip_prompt_text(t: &str) -> (r: String)
    ensures
        r@ == strip_prompt(t@),
{
    let cs = chars_of(t);
    if cs.len() >= 2 && cs[0] == '>' && cs[1] == ' ' {
        crate::text::string_from_chars(&cs.as_slice()[2..cs.len()])
    } else {
        crate::text::copy_str(t)
    }
}

/// The transcript to save (see [`transcript`]).
pub fn history_content(state: &ConsoleState, buffer: &ConsoleBuffer, settings: &PersistenceSettings) -> (r:
    String)
    ensures
        r@ == transcript(state@.history, buffer@.lines, *settings),
{
    let history = state.command_history();
    let ghost h = state@.history;
    let mut content = String::new();
    let mut i: usize = 0;
    assert(h.take(0) =~= Seq::<Seq<char>>::empty());
    while i < history.len()
        invariant
            0 <= i <= history@.len(),
            history@.map_values(|s: String| s@) == h,
            content@ == history_rows(h.take(i as int)),
        decreases history@.len() - i,
    {
        proof {
            reveal_strlit("H");
            assert("H"@ =~= seq!['H']);
        }
        push_row(&mut content, "H", history[i].as_str());
        assert(h.take(i + 1).drop_last() =~= h.take(i as int));
        assert(h.take(i + 1).last() == history@[i as int]@);
        i = i + 1;
    }
    assert(h.take(history@.len() as int) =~= h);
    if settings.recall_only {
        assert(content@ + Seq::<char>::empty() =~= content@);
        return content;
    }
    let ghost lines = buffer@.lines;
    let n = buffer.len();
    let first = if n > settings.max_saved_lines {
        n - settings.max_saved_lines
    } else {
        0
    };
    let ghost kept = keep_last(lines, settings.max_saved_lines as nat);
    assert(kept =~= lines.skip(first as int));
    let ghost head = content@;
    let mut k = first;
    assert(kept.take(0) =~= Seq::<LineView>::empty());
    assert(head + line_rows(kept.take(0), settings.max_line_length) =~= head);
    while k < n
        invariant
            first <= k <= n,
            n == lines.len(),
            lines == buffer@.lines,
            kept == lines.skip(first as int),
            content@ == head + line_rows(kept.take(k - first), settings.max_line_length),
        decreases n - k,
    {
        let line = match buffer.line(k) {
            Some(l) => l,
            None => {
                return content;
            },
        };
        assert(kept[k - first] == lines[k as int]);
        assert(kept.take(k - first + 1).drop_last() =~= kept.take(k - first));
        assert(kept.take(k - first + 1).last() == line@);
        let ghost before = content@;
        match &line.source {
            ConsoleLineSource::CommandEcho { .. } => {
                let text = strip_prompt_text(line.text.as_str());
                let text = truncate_text(text.as_str(), settings.max_line_length);
                proof {
                    reveal_strlit("C");
                    assert("C"@ =~= seq!['C']);
                }
                push_row(&mut content, "C", text.as_str());
            },
            _ => {
                let text = truncate_text(line.text.as_str(), settings.max_line_length);
                push_row(&mut content, output_kind(line.level), text.as_str());
            },
        }
        assert(content@ =~= head + line_rows(kept.take(k - first + 1), settings.max_line_length));
        k = k + 1;
    }
    assert(kept.take(n - first) =~= kept);
    content
}

/// What a transcript row records.
#[derive(Debug, Clone, Copy, PartialEq, Eq, Structural)]
pub enum RecordKind {
    /// A recalled command (`H`).
    History,
    /// A command echo (`C`).
    Echo,
    /// An output line at a level (`T`, `D`, `I`, `W`, `E`).
    Output(ConsoleLevel),
}

/// The record kind a row's kind field names.
pub open spec fn record_kind(k: Seq<char>) -> Option<RecordKind> {
    if k.len() != 1 {
        None
    } else {
        let c = k[0];
        if c == 'H' {
            Some(RecordKind::History)
        } else if c == 'C' {
            Some(RecordKind::Echo)
        } else if c == 'T' {
            Some(RecordKind::Output(ConsoleLevel::Trace))
        } else if c == 'D' {
            Some(RecordKind::Output(ConsoleLevel::Debug))
        } else if c == 'I' {
            Some(RecordKind::Output(ConsoleLevel::Info))
        } else if c == 'W' {
            Some(RecordKind::Output(ConsoleLevel::Warn))
        } else if c == 'E' {
            Some(RecordKind::Output(ConsoleLevel::Error))
        } else {
            None
        }
    }
}

/// A row read back: a known kind, a tab, and a valid escaped text holding no
/// further tab.
pub open spec fn parse_row(r: Seq<char>) -> Option<(RecordKind, Seq<char>)> {
    let k = crate::text::find_from(r, '\t', 0);
    if k >= r.len() {
        None
    } else {
        let enc = r.skip(k + 1);
        if crate::text::find_from(enc, '\t', 0) < enc.len() {
            None
        } else {
            match (record_kind(r.take(k)), decode(enc)) {
                (Some(kind), Some(t)) => Some((kind, t)),
                _ => None,
            }
        }
    }
}

/// Every row read back, or `None` when any row is malformed.
pub open spec fn parse_rows(rows: Seq<Seq<char>>) -> Option<Seq<(RecordKind, Seq<char>)>>
    decreases rows.len(),
{
    if rows.len() == 0 {
        Some(Seq::empty())
    } else {
        match (parse_rows(rows.drop_last()), parse_row(rows.last())) {
            (Some(prev), Some(rec)) => Some(prev.push(rec)),
            _ => None,
        }
    }
}

/// The command word of a command line, or nothing.
pub open spec fn command_word(t: Seq<char>) -> Seq<char> {
    let p = spec_parse_at(t, utf8_len(t) as int);
    if p.tokens.len() == 0 {
        Seq::empty()
    } else {
        p.tokens[0].value
    }
}

/// Replaying records onto buffer `b`: the recalled commands, the echoes
/// (command and the id of the line that echoed it), and the buffer.
pub open spec fn replay(
    recs: Seq<(RecordKind, Seq<char>)>,
    b: BufferView,
) -> (Seq<Seq<char>>, Seq<(Seq<char>, Option<u64>)>, BufferView)
    decreases recs.len(),
{
    if recs.len() == 0 {
        (Seq::empty(), Seq::empty(), b)
    } else {
        let (cmds, echoes, b1) = replay(recs.drop_last(), b);
        let (kind, t) = recs.last();
        match kind {
            RecordKind::History => (cmds.push(t), echoes, b1),
            RecordKind::Echo => {
                let b2 = pushed(
                    b1,
                    ConsoleLevel::Info,
                    LineSourceView::CommandEcho { name: command_word(t) },
                    "> "@ + t,
                );
                let id = if b2.lines.len() > 0 {
                    Some(b2.lines.last().id)
                } else {
                    None
                };
                (cmds, echoes.push((t, id)), b2)
            },
            RecordKind::Output(level) => (
                cmds,
                echoes,
                pushed(b1, level, LineSourceView::System, t),
            ),
        }
    }
}

/// The newest entry of `h` before `end` equal to `cmd`.
pub open spec fn last_index_of(h: Seq<Seq<char>>, end: int, cmd: Seq<char>) -> Option<int>
    decreases end,
{
    if end <= 0 || end > h.len() {
        None
    } else if h[end - 1] == cmd {
        Some(end - 1)
    } else {
        last_index_of(h, end - 1, cmd)
    }
}

/// Some line of `lines` has id `id`.
pub open spec fn has_line(lines: Seq<LineView>, id: u64) -> bool {
    exists|i: int| 0 <= i < lines.len() && #[trigger] lines[i].id == id
}

/// Links restored echoes to recall, newest first: each echo links the newest
/// matching command older than the previously linked one, provided its line
/// is still in the buffer.
pub open spec fn linked(
    ids: Seq<Option<u64>>,
    h: Seq<Seq<char>>,
    lines: Seq<LineView>,
    echoes: Seq<(Seq<char>, Option<u64>)>,
    end: int,
) -> Seq<Option<u64>>
    decreases echoes.len(),
{
    if echoes.len() == 0 {
        ids
    } else {
        let (cmd, line_id) = echoes.last();
        match last_index_of(h, end, cmd) {
            None => linked(ids, h, lines, echoes.drop_last(), end),
            Some(idx) => {
                let ids2 = match line_id {
                    Some(id) => if has_line(lines, id) && idx < ids.len() {
                        ids.update(idx, Some(id))
                    } else {
                        ids
                    },
                    None => ids,
                };
                linked(ids2, h, lines, echoes.drop_last(), idx)
            },
        }
    }
}

/// The state restored from replayed commands and echoes: the newest
/// `limit` commands, linked to their echoes; everything else fresh.
pub open spec fn restored_state(
    cmds: Seq<Seq<char>>,
    echoes: Seq<(Seq<char>, Option<u64>)>,
    lines: Seq<LineView>,
    limit: usize,
) -> StateView {
    let h = keep_last(cmds, limit as nat);
    StateView {
        enabled: true,
        open: false,
        input: Seq::empty(),
        items: Seq::empty(),
        overflow: 0,
        match_index: 0,
        dirty: false,
        completion_cursor: None,
        scroll_follow: true,
        history: h,
        line_ids: linked(Seq::new(h.len(), |i: int| None), h, lines, echoes, h.len() as int),
        history_index: None,
        draft: Seq::empty(),
        pending: None,
        revision: 0,
    }
}

/// The state and buffer a transcript restores, or `None` when any row is
/// malformed (nothing is restored then).
pub open spec fn restored(content: Seq<char>, max_lines: usize, limit: usize) -> Option<(StateView, BufferView)> {
    match parse_rows(lines_of(content)) {
        None => None,
        Some(recs) => {
            let (cmds, echoes, b) = replay(
                recs,
                BufferView { lines: Seq::empty(), max_lines: max_lines as nat, last_id: 0 },
            );
            Some((restored_state(cmds, echoes, b.lines, limit), b))
        },
    }
}

/// Reads one row (see [`parse_row`]).
pub fn read_row(r: &str) -> (out: Option<(RecordKind, String)>)
    ensures
        match parse_row(r@) {
            Some((kind, t)) => out matches Some((k, s)) && k == kind && s@ == t,
            None => out is None,
        },
{
    let cs = chars_of(r);
    let ghost rv = cs@;
    let mut k: usize = 0;
    while k < cs.len() && cs[k] != '\t'
        invariant
            0 <= k <= rv.len(),
            rv == cs@,
            crate::text::find_from(rv, '\t', 0) == crate::text::find_from(rv, '\t', k as int),
        decreases rv.len() - k,
    {
        k = k + 1;
    }
    proof {
        crate::text::lemma_find_from(rv, '\t', k as int);
    }
    if k == cs.len() {
        return None;
    }
    let ghost enc = rv.skip(k + 1);
    let mut j: usize = k + 1;
    assert(enc.skip(0) =~= enc);
    while j < cs.len()
        invariant
            k < j <= rv.len(),
            rv == cs@,
            rv == r@,
            crate::text::find_from(rv, '\t', 0) == k as int,
            enc == rv.skip(k + 1),
            crate::text::find_from(enc, '\t', 0) == crate::text::find_from(enc, '\t', (j - k - 1) as int),
        decreases rv.len() - j,
    {
        assert(enc[j - k - 1] == rv[j as int]);
        if cs[j] == '\t' {
            assert(crate::text::find_from(enc, '\t', (j - k - 1) as int) == (j - k - 1) as int);
            return None;
        }
        j = j + 1;
    }
    let kind = if k == 1 {
        let c = cs[0];
        assert(rv.take(1)[0] == c);
        if c == 'H' {
            RecordKind::History
        } else if c == 'C' {
            RecordKind::Echo
        } else if c == 'T' {
            RecordKind::Output(ConsoleLevel::Trace)
        } else if c == 'D' {
            RecordKind::Output(ConsoleLevel::Debug)
        } else if c == 'I' {
            RecordKind::Output(ConsoleLevel::Info)
        } else if c == 'W' {
            RecordKind::Output(ConsoleLevel::Warn)
        } else if c == 'E' {
            RecordKind::Output(ConsoleLevel::Error)
        } else {
            return None;
        }
    } else {
        assert(rv.take(k as int).len() != 1);
        return None;
    };
    let encoded = string_from_chars(&cs.as_slice()[k + 1..cs.len()]);
    assert(encoded@ =~= enc);
    match decode_text(encoded.as_str()) {
        Some(t) => Some((kind, t)),
        None => None,
    }
}

/// The newest entry of `h` before `end` equal to `cmd` (see [`last_index_of`]).
fn find_last(h: &[String], end: usize, cmd: &str) -> (r: Option<usize>)
    requires
        end <= h@.len(),
    ensures
        r matches Some(k) ==> last_index_of(h@.map_values(|s: String| s@), end as int, cmd@) == Some(
            k as int,
        ) && k < end,
        r is None ==> last_index_of(h@.map_values(|s: String| s@), end as int, cmd@) is None,
{
    let ghost hv = h@.map_values(|s: String| s@);
    let mut e = end;
    while e > 0
        invariant
            e <= end <= h@.len(),
            hv == h@.map_values(|s: String| s@),
            last_index_of(hv, end as int, cmd@) == last_index_of(hv, e as int, cmd@),
        decreases e,
    {
        if crate::text::str_eq(h[e - 1].as_str(), cmd) {
            return Some(e - 1);
        }
        e = e - 1;
    }
    None
}

/// Whether some line of the buffer has id `id`.
fn buffer_has_line(buffer: &ConsoleBuffer, id: u64) -> (r: bool)
    ensures
        r == has_line(buffer@.lines, id),
{
    let n = buffer.len();
    let mut i: usize = 0;
    while i < n
        invariant
            0 <= i <= n,
            n == buffer@.lines.len(),
            forall|j: int| 0 <= j < i ==> (#[trigger] buffer@.lines[j]).id != id,
        decreases n - i,
    {
        match buffer.line(i) {
            Some(line) => {
                if line.id == id {
                    assert(buffer@.lines[i as int].id == id);
                    return true;
                }
            },
            None => {},
        }
        i = i + 1;
    }
    false
}

/// Links restored echoes to recall (see [`linked`]).
pub fn link_restored_echoes(state: &mut ConsoleState, buffer: &ConsoleBuffer, echoes: &Vec<(String, Option<u64>)>)
    ensures
        final(state)@ == (StateView {
            line_ids: linked(
                old(state)@.line_ids,
                old(state)@.history,
                buffer@.lines,
                echoes@.map_values(|e: (String, Option<u64>)| (e.0@, e.1)),
                old(state)@.history.len() as int,
            ),
            ..old(state)@
        }),
{
    let ghost ev = echoes@.map_values(|e: (String, Option<u64>)| (e.0@, e.1));
    let ghost o = state@;
    let ghost h = o.history;
    let mut end = state.command_history().len();
    let mut k = echoes.len();
    assert(ev.take(k as int) =~= ev);
    while k > 0
        invariant
            k <= echoes@.len(),
            end <= h.len(),
            ev == echoes@.map_values(|e: (String, Option<u64>)| (e.0@, e.1)),
            h == o.history,
            state@ == (StateView { line_ids: state@.line_ids, ..o }),
            linked(o.line_ids, h, buffer@.lines, ev, h.len() as int) == linked(
                state@.line_ids,
                h,
                buffer@.lines,
                ev.take(k as int),
                end as int,
            ),
        decreases k,
    {
        let (command, line_id) = &echoes[k - 1];
        assert(ev.take(k as int).last() == (command@, *line_id));
        assert(ev.take(k as int).drop_last() =~= ev.take(k - 1));
        let history = state.command_history();
        let found = find_last(history, end, command.as_str());
        let ghost ids = state@.line_ids;
        match found {
            None => {
                assert(last_index_of(h, end as int, command@) is None);
            },
            Some(index) => {
                assert(last_index_of(h, end as int, command@) == Some(index as int));
                end = index;
                if let Some(id) = line_id {
                    if buffer_has_line(buffer, *id) {
                        state.set_history_line_id(index, *id);
                    }
                }
                assert(state@.line_ids == match *line_id {
                    Some(id) => if has_line(buffer@.lines, id) && index < ids.len() {
                        ids.update(index as int, Some(id))
                    } else {
                        ids
                    },
                    None => ids,
                });
            },
        }
        k = k - 1;
    }
}

/// Every row of `content` read back (see [`parse_rows`]).
fn read_rows(content: &str) -> (r: Option<Vec<(RecordKind, String)>>)
    ensures
        match parse_rows(lines_of(content@)) {
            Some(recs) => r matches Some(v) && v@.map_values(|e: (RecordKind, String)| (e.0, e.1@)) == recs,
            None => r is None,
        },
{
    let rows = split_lines(content);
    let ghost rv = rows@.map_values(|l: String| l@);
    let mut recs: Vec<(RecordKind, String)> = Vec::new();
    let mut i: usize = 0;
    assert(rv.take(0) =~= Seq::<Seq<char>>::empty());
    assert(recs@.map_values(|e: (RecordKind, String)| (e.0, e.1@)) =~= Seq::<(RecordKind, Seq<char>)>::empty());
    while i < rows.len()
        invariant
            0 <= i <= rows@.len(),
            rv == rows@.map_values(|l: String| l@),
            rv == lines_of(content@),
            parse_rows(rv.take(i as int)) == Some(
                recs@.map_values(|e: (RecordKind, String)| (e.0, e.1@)),
            ),
        decreases rows@.len() - i,
    {
        assert(rv.take(i + 1).drop_last() =~= rv.take(i as int));
        assert(rv.take(i + 1).last() == rows@[i as int]@);
        match read_row(rows[i].as_str()) {
            Some(rec) => {
                let ghost before = recs@.map_values(|e: (RecordKind, String)| (e.0, e.1@));
                let ghost rec_view = (rec.0, rec.1@);
                recs.push(rec);
                assert(recs@.map_values(|e: (RecordKind, String)| (e.0, e.1@)) =~= before.push(
                    rec_view,
                ));
            },
            None => {
                proof {
                    lemma_rows_none(rv, i as int + 1);
                }
                return None;
            },
        }
        i = i + 1;
    }
    assert(rv.take(rows@.len() as int) =~= rv);
    Some(recs)
}

/// Replays records onto an empty buffer of `max_lines` (see [`replay`]).
fn replay_records(recs: &Vec<(RecordKind, String)>, max_lines: usize) -> (r: (
    Vec<String>,
    Vec<(String, Option<u64>)>,
    ConsoleBuffer,
))
    ensures
        replay(
            recs@.map_values(|e: (RecordKind, String)| (e.0, e.1@)),
            BufferView { lines: Seq::empty(), max_lines: max_lines as nat, last_id: 0 },
        ) == (
            r.0@.map_values(|s: String| s@),
            r.1@.map_values(|e: (String, Option<u64>)| (e.0@, e.1)),
            r.2@,
        ),
{
    let ghost recv = recs@.map_values(|e: (RecordKind, String)| (e.0, e.1@));
    let mut buffer = ConsoleBuffer::new(max_lines);
    let ghost b0 = buffer@;
    let mut commands: Vec<String> = Vec::new();
    let mut echoes: Vec<(String, Option<u64>)> = Vec::new();
    let mut j: usize = 0;
    assert(recv.take(0) =~= Seq::<(RecordKind, Seq<char>)>::empty());
    assert(commands@.map_values(|s: String| s@) =~= Seq::<Seq<char>>::empty());
    assert(echoes@.map_values(|e: (String, Option<u64>)| (e.0@, e.1)) =~= Seq::<(Seq<char>, Option<u64>)>::empty());
    while j < recs.len()
        invariant
            0 <= j <= recs@.len(),
            recv == recs@.map_values(|e: (RecordKind, String)| (e.0, e.1@)),
            b0 == (BufferView { lines: Seq::empty(), max_lines: max_lines as nat, last_id: 0 }),
            replay(recv.take(j as int), b0) == (
                commands@.map_values(|s: String| s@),
                echoes@.map_values(|e: (String, Option<u64>)| (e.0@, e.1)),
                buffer@,
            ),
        decreases recs@.len() - j,
    {
        assert(recv.take(j + 1).drop_last() =~= recv.take(j as int));
        assert(recv.take(j + 1).last() == (recs@[j as int].0, recs@[j as int].1@));
        let (kind, text) = &recs[j];
        let ghost cv = commands@.map_values(|s: String| s@);
        let ghost evv = echoes@.map_values(|e: (String, Option<u64>)| (e.0@, e.1));
        match kind {
            RecordKind::History => {
                commands.push(text.clone());
                assert(commands@.map_values(|s: String| s@) =~= cv.push(text@));
            },
            RecordKind::Echo => {
                let t = text.as_str();
                let parsed = ParsedInput::parse(t);
                proof {
                    crate::text::lemma_str_len(t);
                    assert(t@.take(t@.len() as int) =~= t@);
                }
                let name = match parsed.command() {
                    Some(c) => copy_str(c),
                    None => String::new(),
                };
                assert(name@ == command_word(text@));
                let shown = cat("> ", t);
                buffer.push(ConsoleLevel::Info, ConsoleLineSource::CommandEcho { name }, shown.as_str());
                let id = match buffer.last_line() {
                    Some(line) => Some(line.id),
                    None => None,
                };
                echoes.push((text.clone(), id));
                assert(echoes@.map_values(|e: (String, Option<u64>)| (e.0@, e.1)) =~= evv.push(
                    (text@, id),
                ));
            },
            RecordKind::Output(level) => {
                buffer.push(*level, ConsoleLineSource::System, text.as_str());
            },
        }
        j = j + 1;
    }
    assert(recv.take(recs@.len() as int) =~= recv);
    (commands, echoes, buffer)
}

/// The state and buffer a transcript restores (see [`restored`]); `None`
/// when any row is malformed.
pub fn restore_transcript(content: &str, max_lines: usize, max_command_history: usize) -> (r: Option<
    (ConsoleState, ConsoleBuffer),
>)
    ensures
        match restored(content@, max_lines, max_command_history) {
            Some((sv, bv)) => r matches Some((s, b)) && s@ == sv && b@ == bv,
            None => r is None,
        },
{
    let recs = match read_rows(content) {
        Some(v) => v,
        None => {
            return None;
        },
    };
    let (commands, echoes, buffer) = replay_records(&recs, max_lines);
    let mut state = ConsoleState::default();
    state.restore_command_history(commands, max_command_history);
    link_restored_echoes(&mut state, &buffer, &echoes);
    Some((state, buffer))
}

/// Once a row fails to read, the whole transcript does.
proof fn lemma_rows_none(rv: Seq<Seq<char>>, n: int)
    requires
        0 <= n <= rv.len(),
        parse_rows(rv.take(n)) is None,
    ensures
        parse_rows(rv) is None,
    decreases rv.len() - n,
{
    if n < rv.len() {
        assert(rv.take(n + 1).drop_last() =~= rv.take(n));
        lemma_rows_none(rv, n + 1);
    } else {
        assert(rv.take(n) =~= rv);
    }
}


/// The recalled commands among `recs`, in order.
pub open spec fn commands_in(recs: Seq<(RecordKind, Seq<char>)>) -> Seq<Seq<char>>
    decreases recs.len(),
{
    if recs.len() == 0 {
        Seq::empty()
    } else {
        let prev = commands_in(recs.drop_last());
        match recs.last().0 {
            RecordKind::History => prev.push(recs.last().1),
            _ => prev,
        }
    }
}

/// Replaying records recalls exactly the commands among them, whatever the
/// buffer.
proof fn lemma_replay_commands(recs: Seq<(RecordKind, Seq<char>)>, b: BufferView)
    ensures
        replay(recs, b).0 == commands_in(recs),
    decreases recs.len(),
{
    if recs.len() > 0 {
        lemma_replay_commands(recs.drop_last(), b);
    }
}

proof fn lemma_commands_concat(a: Seq<(RecordKind, Seq<char>)>, b: Seq<(RecordKind, Seq<char>)>)
    ensures
        commands_in(a + b) == commands_in(a) + commands_in(b),
    decreases b.len(),
{
    if b.len() == 0 {
        assert(a + b =~= a);
        assert(commands_in(b) =~= Seq::<Seq<char>>::empty());
        assert(commands_in(a) + commands_in(b) =~= commands_in(a));
    } else {
        assert((a + b).drop_last() =~= a + b.drop_last());
        assert((a + b).last() == b.last());
        lemma_commands_concat(a, b.drop_last());
        match b.last().0 {
            RecordKind::History => {
                assert(commands_in(a + b) =~= commands_in(a) + commands_in(b));
            },
            _ => {
            },
        }
    }
}

proof fn lemma_rows_concat(a: Seq<Seq<char>>, b: Seq<Seq<char>>)
    requires
        parse_rows(a) is Some,
        parse_rows(b) is Some,
    ensures
        parse_rows(a + b) == Some(parse_rows(a)->0 + parse_rows(b)->0),
    decreases b.len(),
{
    if b.len() == 0 {
        assert(a + b =~= a);
        assert(parse_rows(a)->0 + parse_rows(b)->0 =~= parse_rows(a)->0);
    } else {
        assert((a + b).drop_last() =~= a + b.drop_last());
        assert((a + b).last() == b.last());
        lemma_rows_concat(a, b.drop_last());
        assert(parse_rows(a + b)->0 =~= parse_rows(a)->0 + parse_rows(b)->0);
    }
}

/// A row written reads back as one line holding its kind and text.
proof fn lemma_row_reads_back(kind: Seq<char>, t: Seq<char>)
    requires
        record_kind(kind) is Some,
    ensures
        lines_of(row(kind, t)) == seq![kind + seq!['\t'] + encode(t)],
        parse_row(kind + seq!['\t'] + encode(t)) == Some((record_kind(kind)->0, t)),
        row(kind, t).last() == '\n',
{
    let e = encode(t);
    let r = kind + seq!['\t'] + e;
    lemma_encode_plain(t);
    assert(r[0] == kind[0]);
    assert(r[1] == '\t');
    assert forall|j: int| 0 <= j < r.len() implies r[j] != '\n' by {
        if j >= 2 {
            assert(r[j] == e[j - 2]);
        }
    }
    assert(r.last() != '\r') by {
        if e.len() > 0 {
            assert(r.last() == e[e.len() - 1]);
        }
    }
    assert(row(kind, t) =~= r + seq!['\n']);
    crate::text::lemma_lines_of_line(r);
    crate::text::lemma_find_from(r, '\t', 0);
    assert(crate::text::find_from(r, '\t', 0) == 1) by {
        if kind[0] == '\t' {
        }
        assert(crate::text::find_from(r, '\t', 0) != 0) by {
            crate::text::lemma_find_from(r, '\t', 1);
        }
        crate::text::lemma_find_from(r, '\t', 1);
    }
    assert(r.take(1) =~= kind);
    assert(r.skip(2) =~= e);
    crate::text::lemma_find_from(e, '\t', 0);
    lemma_decode_encode(t);
}

/// The rows of recalled commands read back as those commands.
proof fn lemma_history_rows_read(h: Seq<Seq<char>>)
    ensures
        parse_rows(lines_of(history_rows(h))) == Some(h.map_values(|t: Seq<char>| (RecordKind::History, t))),
        history_rows(h).len() == 0 || history_rows(h).last() == '\n',
    decreases h.len(),
{
    if h.len() == 0 {
        assert(lines_of(history_rows(h)) =~= Seq::<Seq<char>>::empty());
        assert(h.map_values(|t: Seq<char>| (RecordKind::History, t)) =~= Seq::<(RecordKind, Seq<char>)>::empty());
    } else {
        let prev = h.drop_last();
        lemma_history_rows_read(prev);
        assert(record_kind(seq!['H']) == Some(RecordKind::History));
        lemma_row_reads_back(seq!['H'], h.last());
        crate::text::lemma_lines_of_concat(history_rows(prev), row(seq!['H'], h.last()));
        let ls = lines_of(history_rows(h));
        let lp = lines_of(history_rows(prev));
        let r = seq!['H'] + seq!['\t'] + encode(h.last());
        assert(ls =~= lp.push(r));
        assert(ls.drop_last() =~= lp);
        assert(h.map_values(|t: Seq<char>| (RecordKind::History, t)) =~= prev.map_values(
            |t: Seq<char>| (RecordKind::History, t),
        ).push((RecordKind::History, h.last())));
        let hr = history_rows(h);
        let rw = row(seq!['H'], h.last());
        assert(hr == history_rows(prev) + rw);
        assert(hr.last() == rw.last());
    }
}

/// The rows of output lines read back as records of no recalled command.
proof fn lemma_line_rows_read(ls: Seq<LineView>, m: Option<usize>)
    ensures
        parse_rows(lines_of(line_rows(ls, m))) is Some,
        commands_in(parse_rows(lines_of(line_rows(ls, m)))->0) == Seq::<Seq<char>>::empty(),
        line_rows(ls, m).len() == 0 || line_rows(ls, m).last() == '\n',
    decreases ls.len(),
{
    if ls.len() == 0 {
        assert(lines_of(line_rows(ls, m)) =~= Seq::<Seq<char>>::empty());
    } else {
        let prev = ls.drop_last();
        lemma_line_rows_read(prev, m);
        let l = ls.last();
        let (kind, t) = match l.source {
            LineSourceView::CommandEcho { .. } => (seq!['C'], truncated(strip_prompt(l.text), m)),
            _ => (level_kind(l.level), truncated(l.text, m)),
        };
        assert(line_row(l, m) == row(kind, t));
        assert(record_kind(kind) is Some && record_kind(kind)->0 != RecordKind::History);
        lemma_row_reads_back(kind, t);
        crate::text::lemma_lines_of_concat(line_rows(prev, m), row(kind, t));
        let all = lines_of(line_rows(ls, m));
        let lp = lines_of(line_rows(prev, m));
        let r = kind + seq!['\t'] + encode(t);
        assert(all =~= lp.push(r));
        assert(all.drop_last() =~= lp);
        let pr = parse_rows(lp)->0;
        assert(parse_rows(all) == Some(pr.push((record_kind(kind)->0, t))));
        assert(pr.push((record_kind(kind)->0, t)).drop_last() =~= pr);
        let lr = line_rows(ls, m);
        assert(lr == line_rows(prev, m) + row(kind, t));
        assert(lr.last() == row(kind, t).last());
    }
}

proof fn lemma_commands_of_history(h: Seq<Seq<char>>)
    ensures
        commands_in(h.map_values(|t: Seq<char>| (RecordKind::History, t))) == h,
    decreases h.len(),
{
    if h.len() > 0 {
        let prev = h.drop_last();
        lemma_commands_of_history(prev);
        assert(h.map_values(|t: Seq<char>| (RecordKind::History, t)).drop_last() =~= prev.map_values(
            |t: Seq<char>| (RecordKind::History, t),
        ));
        assert(h =~= prev.push(h.last()));
    } else {
        assert(h =~= Seq::<Seq<char>>::empty());
    }
}

/// Saved recall comes back: a transcript written from recall `h` and any
/// output always reads back, and the restored recall is the newest `limit`
/// commands of `h`, oldest first.
pub proof fn law_transcript_restores_recall(
    h: Seq<Seq<char>>,
    lines: Seq<LineView>,
    settings: PersistenceSettings,
    max_lines: usize,
    limit: usize,
)
    ensures
        restored(transcript(h, lines, settings), max_lines, limit) is Some,
        (restored(transcript(h, lines, settings), max_lines, limit)->0).0.history == keep_last(h, limit as nat),
{
    let out = if settings.recall_only {
        Seq::<char>::empty()
    } else {
        line_rows(keep_last(lines, settings.max_saved_lines as nat), settings.max_line_length)
    };
    lemma_history_rows_read(h);
    if settings.recall_only {
        assert(lines_of(out) =~= Seq::<Seq<char>>::empty());
    } else {
        lemma_line_rows_read(keep_last(lines, settings.max_saved_lines as nat), settings.max_line_length);
    }
    let hr = h.map_values(|t: Seq<char>| (RecordKind::History, t));
    let orecs = parse_rows(lines_of(out))->0;
    assert(commands_in(orecs) =~= Seq::<Seq<char>>::empty());
    crate::text::lemma_lines_of_concat(history_rows(h), out);
    assert(transcript(h, lines, settings) == history_rows(h) + out);
    lemma_rows_concat(lines_of(history_rows(h)), lines_of(out));
    let recs = hr + orecs;
    let b0 = BufferView { lines: Seq::empty(), max_lines: max_lines as nat, last_id: 0 };
    lemma_replay_commands(recs, b0);
    lemma_commands_concat(hr, orecs);
    lemma_commands_of_history(h);
    assert(commands_in(recs) =~= h);
}


/// The record an output line is saved as.
pub open spec fn line_record(l: LineView, max_len: Option<usize>) -> (RecordKind, Seq<char>) {
    match l.source {
        LineSourceView::CommandEcho { .. } => (RecordKind::Echo, truncated(strip_prompt(l.text), max_len)),
        _ => (RecordKind::Output(l.level), truncated(l.text, max_len)),
    }
}

proof fn lemma_line_rows_records(ls: Seq<LineView>, m: Option<usize>)
    ensures
        parse_rows(lines_of(line_rows(ls, m))) == Some(ls.map_values(|l: LineView| line_record(l, m))),
    decreases ls.len(),
{
    if ls.len() == 0 {
        assert(lines_of(line_rows(ls, m)) =~= Seq::<Seq<char>>::empty());
        assert(ls.map_values(|l: LineView| line_record(l, m)) =~= Seq::<(RecordKind, Seq<char>)>::empty());
    } else {
        let prev = ls.drop_last();
        lemma_line_rows_records(prev, m);
        lemma_line_rows_read(prev, m);
        let l = ls.last();
        let (kind, t) = match l.source {
            LineSourceView::CommandEcho { .. } => (seq!['C'], truncated(strip_prompt(l.text), m)),
            _ => (level_kind(l.level), truncated(l.text, m)),
        };
        assert(line_row(l, m) == row(kind, t));
        assert(record_kind(kind) == Some(line_record(l, m).0));
        assert(line_record(l, m).1 == t);
        lemma_row_reads_back(kind, t);
        crate::text::lemma_lines_of_concat(line_rows(prev, m), row(kind, t));
        let all = lines_of(line_rows(ls, m));
        let lp = lines_of(line_rows(prev, m));
        let r = kind + seq!['\t'] + encode(t);
        assert(all =~= lp.push(r));
        assert(all.drop_last() =~= lp);
        assert(ls.map_values(|l: LineView| line_record(l, m)) =~= prev.map_values(
            |l: LineView| line_record(l, m),
        ).push(line_record(l, m)));
    }
}

/// The text a replayed record writes.
pub open spec fn record_text(r: (RecordKind, Seq<char>)) -> Seq<char> {
    match r.0 {
        RecordKind::Echo => "> "@ + r.1,
        _ => r.1,
    }
}

/// The level a replayed record writes at.
pub open spec fn record_level(r: (RecordKind, Seq<char>)) -> ConsoleLevel {
    match r.0 {
        RecordKind::Output(level) => level,
        _ => ConsoleLevel::Info,
    }
}

/// A line's level and text.
pub open spec fn level_text(l: LineView) -> (ConsoleLevel, Seq<char>) {
    (l.level, l.text)
}

/// A record's level and text once replayed.
pub open spec fn record_level_text(r: (RecordKind, Seq<char>)) -> (ConsoleLevel, Seq<char>) {
    (record_level(r), record_text(r))
}

/// Text that is written as exactly one line.
pub open spec fn single_line(t: Seq<char>) -> bool {
    t.len() > 0 && forall|j: int| 0 <= j < t.len() ==> t[j] != '\n'
}

proof fn lemma_keep_last_push<T>(s: Seq<T>, x: T, max: nat)
    ensures
        keep_last(keep_last(s, max).push(x), max) == keep_last(s.push(x), max),
{
    assert(keep_last(keep_last(s, max).push(x), max) =~= keep_last(s.push(x), max));
}

proof fn lemma_keep_last_map(s: Seq<LineView>, max: nat)
    ensures
        keep_last(s, max).map_values(|l: LineView| level_text(l)) == keep_last(
            s.map_values(|l: LineView| level_text(l)),
            max,
        ),
{
    assert(keep_last(s, max).map_values(|l: LineView| level_text(l)) =~= keep_last(
        s.map_values(|l: LineView| level_text(l)),
        max,
    ));
}

proof fn lemma_replay_history_buffer(h: Seq<Seq<char>>, b: BufferView)
    ensures
        replay(h.map_values(|t: Seq<char>| (RecordKind::History, t)), b).2 == b,
    decreases h.len(),
{
    if h.len() > 0 {
        let prev = h.drop_last();
        assert(h.map_values(|t: Seq<char>| (RecordKind::History, t)).drop_last() =~= prev.map_values(
            |t: Seq<char>| (RecordKind::History, t),
        ));
        lemma_replay_history_buffer(prev, b);
    }
}

proof fn lemma_replay_concat_buffer(a: Seq<(RecordKind, Seq<char>)>, c: Seq<(RecordKind, Seq<char>)>, b: BufferView)
    ensures
        replay(a + c, b).2 == replay(c, replay(a, b).2).2,
    decreases c.len(),
{
    if c.len() == 0 {
        assert(a + c =~= a);
    } else {
        assert((a + c).drop_last() =~= a + c.drop_last());
        assert((a + c).last() == c.last());
        lemma_replay_concat_buffer(a, c.drop_last(), b);
    }
}

/// Replaying one-line output records writes one line each, keeping the
/// newest that fit.
proof fn lemma_replay_output(recs: Seq<(RecordKind, Seq<char>)>, b0: BufferView)
    requires
        b0.lines.len() == 0,
        forall|i: int| 0 <= i < recs.len() ==> (#[trigger] recs[i]).0 != RecordKind::History,
        forall|i: int| 0 <= i < recs.len() ==> single_line(record_text(#[trigger] recs[i])),
    ensures
        replay(recs, b0).2.max_lines == b0.max_lines,
        replay(recs, b0).2.lines.map_values(|l: LineView| level_text(l)) == keep_last(
            recs.map_values(|r: (RecordKind, Seq<char>)| record_level_text(r)),
            b0.max_lines,
        ),
    decreases recs.len(),
{
    if recs.len() == 0 {
        assert(replay(recs, b0).2.lines.map_values(|l: LineView| level_text(l)) =~= Seq::<
            (ConsoleLevel, Seq<char>),
        >::empty());
        assert(recs.map_values(|r: (RecordKind, Seq<char>)| record_level_text(r)) =~= Seq::<
            (ConsoleLevel, Seq<char>),
        >::empty());
    } else {
        let prev = recs.drop_last();
        assert forall|i: int| 0 <= i < prev.len() implies (#[trigger] prev[i]).0 != RecordKind::History
            && single_line(record_text(prev[i])) by {
            assert(prev[i] == recs[i]);
        }
        lemma_replay_output(prev, b0);
        let r = recs.last();
        assert(r == recs[recs.len() - 1]);
        let b1 = replay(prev, b0).2;
        let text = record_text(r);
        crate::text::lemma_lines_of_single(text);
        let source = match r.0 {
            RecordKind::Echo => LineSourceView::CommandEcho { name: command_word(r.1) },
            _ => LineSourceView::System,
        };
        let b2 = pushed(b1, record_level(r), source, text);
        assert(replay(recs, b0).2 == b2);
        let added = appended_lines(record_level(r), source, lines_of(text), b1.last_id);
        assert(added.len() == 1);
        assert(level_text(added[0]) == record_level_text(r));
        lemma_keep_last_map(b1.lines + added, b0.max_lines);
        assert((b1.lines + added).map_values(|l: LineView| level_text(l)) =~= b1.lines.map_values(
            |l: LineView| level_text(l),
        ).push(record_level_text(r)));
        let prev_lt = prev.map_values(|r: (RecordKind, Seq<char>)| record_level_text(r));
        lemma_keep_last_push(prev_lt, record_level_text(r), b0.max_lines);
        assert(recs.map_values(|r: (RecordKind, Seq<char>)| record_level_text(r)) =~= prev_lt.push(
            record_level_text(r),
        ));
    }
}

/// An output line that survives a save and a load unchanged: it is one
/// non-empty line, and an echo is an info line that starts with the `> `
/// prompt.
pub open spec fn restorable_line(l: LineView) -> bool {
    &&& single_line(l.text)
    &&& (l.source is CommandEcho ==> l.level == ConsoleLevel::Info && l.text.len() >= 2 && l.text[0] == '>'
        && l.text[1] == ' ')
}

/// Saved output comes back in order: a transcript saved without a row length
/// limit restores the level and text of each of the newest saved lines that
/// fit the buffer, oldest first.
pub proof fn law_transcript_restores_output(
    h: Seq<Seq<char>>,
    lines: Seq<LineView>,
    settings: PersistenceSettings,
    max_lines: usize,
    limit: usize,
)
    requires
        settings.max_line_length is None,
        !settings.recall_only,
        forall|i: int| 0 <= i < lines.len() ==> restorable_line(#[trigger] lines[i]),
    ensures
        restored(transcript(h, lines, settings), max_lines, limit) is Some,
        (restored(transcript(h, lines, settings), max_lines, limit)->0).1.lines.map_values(
            |l: LineView| level_text(l),
        ) == keep_last(
            keep_last(lines, settings.max_saved_lines as nat).map_values(|l: LineView| level_text(l)),
            max_lines as nat,
        ),
{
    law_transcript_restores_recall(h, lines, settings, max_lines, limit);
    let kept = keep_last(lines, settings.max_saved_lines as nat);
    let m = settings.max_line_length;
    let out = line_rows(kept, m);
    lemma_history_rows_read(h);
    lemma_line_rows_read(kept, m);
    lemma_line_rows_records(kept, m);
    crate::text::lemma_lines_of_concat(history_rows(h), out);
    assert(transcript(h, lines, settings) == history_rows(h) + out);
    lemma_rows_concat(lines_of(history_rows(h)), lines_of(out));
    let hr = h.map_values(|t: Seq<char>| (RecordKind::History, t));
    let orecs = kept.map_values(|l: LineView| line_record(l, m));
    let b0 = BufferView { lines: Seq::empty(), max_lines: max_lines as nat, last_id: 0 };
    lemma_replay_concat_buffer(hr, orecs, b0);
    lemma_replay_history_buffer(h, b0);
    reveal_strlit("> ");
    assert("> "@ =~= seq!['>', ' ']);
    assert forall|i: int| 0 <= i < orecs.len() implies (#[trigger] orecs[i]).0 != RecordKind::History
        && single_line(record_text(orecs[i])) && record_level_text(orecs[i]) == level_text(kept[i]) by {
        let l = kept[i];
        assert(kept[i] == lines[i + (lines.len() - kept.len())]);
        assert(restorable_line(l));
        if l.source is CommandEcho {
            assert("> "@ + strip_prompt(l.text) =~= l.text);
        }
    }
    lemma_replay_output(orecs, b0);
    assert(orecs.map_values(|r: (RecordKind, Seq<char>)| record_level_text(r)) =~= kept.map_values(
        |l: LineView| level_text(l),
    ));
}

} // verus!
