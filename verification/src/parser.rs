//! Shell-like parsing for console input.
//!
//! Input is split into whitespace-separated tokens. Single or double quotes
//! group words into one token and a backslash escapes the next character.
//! Every token keeps its byte range in the source, so completion can replace
//! exactly the word under the cursor. Problems (a trailing backslash, an
//! unterminated quote) are reported without discarding the tokens read.

use crate::text::{lemma_byte_pos_mono, lemma_byte_pos_step, lemma_str_len, byte_pos, char_is_whitespace, char_width, chars_of, is_space, string_from_chars, width};
use std::ops::Range;
use vstd::prelude::*;
use vstd::string::StringSliceAdditionalSpecFns;

verus! {

broadcast use vstd::string::group_string_axioms;

/// A quote character surrounding a parsed token.
#[derive(Debug, Clone, Copy, PartialEq, Eq, Structural)]
pub enum QuoteStyle {
    Single,
    Double,
}

/// One token read from console input.
#[derive(Debug, PartialEq, Eq)]
pub struct ParsedToken {
    /// Decoded text passed to the command.
    pub value: String,
    /// The complete token range in the source, including surrounding quotes.
    pub range: Range<usize>,
    /// The part of `range` containing text that can be replaced by completion.
    pub value_range: Range<usize>,
    /// The surrounding quote style, if the token started quoted.
    pub quote: Option<QuoteStyle>,
}

/// A non-fatal parsing problem. The tokens before and at the problem remain
/// available so completion can still help finish the input.
#[derive(Debug, PartialEq, Eq)]
pub struct ParseError {
    pub message: &'static str,
    pub range: Range<usize>,
}

/// Parsed console input together with the token active at the requested cursor.
#[derive(Debug, PartialEq, Eq)]
pub struct ParsedInput {
    pub source: String,
    pub cursor: usize,
    pub tokens: Vec<ParsedToken>,
    pub active_token: Option<usize>,
    pub error: Option<ParseError>,
}

/// A copy of a byte range.
pub fn copy_range(r: &Range<usize>) -> (c: Range<usize>)
    ensures
        c.start == r.start,
        c.end == r.end,
{
    Range { start: r.start, end: r.end }
}

impl Clone for ParsedToken {
    fn clone(&self) -> (c: Self)
        ensures
            c@ == self@,
    {
        ParsedToken {
            value: self.value.clone(),
            range: copy_range(&self.range),
            value_range: copy_range(&self.value_range),
            quote: self.quote,
        }
    }
}

impl Clone for ParseError {
    fn clone(&self) -> (c: Self)
        ensures
            c@ == self@,
    {
        ParseError { message: self.message, range: copy_range(&self.range) }
    }
}

impl Clone for ParsedInput {
    fn clone(&self) -> (c: Self)
        ensures
            c@ == self@,
    {
        let mut tokens: Vec<ParsedToken> = Vec::new();
        let mut i: usize = 0;
        while i < self.tokens.len()
            invariant
                0 <= i <= self.tokens.len(),
                tokens@.len() == i,
                forall|k: int| 0 <= k < i ==> #[trigger] tokens@[k]@ == self.tokens@[k]@,
            decreases self.tokens.len() - i,
        {
            tokens.push(self.tokens[i].clone());
            i = i + 1;
        }
        let error = match &self.error {
            Some(e) => Some(e.clone()),
            None => None,
        };
        let c = ParsedInput {
            source: self.source.clone(),
            cursor: self.cursor,
            tokens,
            active_token: self.active_token,
            error,
        };
        assert(c@.tokens =~= self@.tokens);
        c
    }
}

// ── Mathematical model ──────────────────────────────────────────────────────

/// A token as the model sees it: decoded text and byte ranges.
pub struct TokenView {
    pub value: Seq<char>,
    pub start: nat,
    pub end: nat,
    pub value_start: nat,
    pub value_end: nat,
    pub quote: Option<QuoteStyle>,
}

/// A parse problem: its message and byte range.
pub struct ErrorView {
    pub message: Seq<char>,
    pub start: nat,
    pub end: nat,
}

/// The model of a [`ParsedInput`].
pub struct ParsedInputView {
    pub source: Seq<char>,
    pub cursor: nat,
    pub tokens: Seq<TokenView>,
    pub active_token: Option<nat>,
    pub error: Option<ErrorView>,
}

impl View for ParsedToken {
    type V = TokenView;

    open spec fn view(&self) -> TokenView {
        TokenView {
            value: self.value@,
            start: self.range.start as nat,
            end: self.range.end as nat,
            value_start: self.value_range.start as nat,
            value_end: self.value_range.end as nat,
            quote: self.quote,
        }
    }
}

impl View for ParseError {
    type V = ErrorView;

    open spec fn view(&self) -> ErrorView {
        ErrorView {
            message: self.message@,
            start: self.range.start as nat,
            end: self.range.end as nat,
        }
    }
}

impl View for ParsedInput {
    type V = ParsedInputView;

    open spec fn view(&self) -> ParsedInputView {
        ParsedInputView {
            source: self.source@,
            cursor: self.cursor as nat,
            tokens: self.tokens@.map_values(|t: ParsedToken| t@),
            active_token: match self.active_token {
                Some(i) => Some(i as nat),
                None => None,
            },
            error: match self.error {
                Some(e) => Some(e@),
                None => None,
            },
        }
    }
}

/// The quote style a token starting with `c` has.
pub open spec fn quote_of(c: char) -> Option<QuoteStyle> {
    if c == '\'' {
        Some(QuoteStyle::Single)
    } else if c == '"' {
        Some(QuoteStyle::Double)
    } else {
        None
    }
}

/// Whether `c` closes a token opened with quote `q`.
pub open spec fn closes(q: Option<QuoteStyle>, c: char) -> bool {
    match q {
        Some(QuoteStyle::Single) => c == '\'',
        Some(QuoteStyle::Double) => c == '"',
        None => false,
    }
}

/// The index of the first non-white-space character at or after `i`.
pub open spec fn skip_ws(cs: Seq<char>, i: int) -> int
    decreases cs.len() - i,
{
    if i < 0 || i >= cs.len() || !is_space(cs[i]) {
        i
    } else {
        skip_ws(cs, i + 1)
    }
}

/// The outcome of reading a token's text from character index `k` on.
pub struct Scan {
    /// Decoded text from `k` to the end of the token.
    pub value: Seq<char>,
    /// Index just past the token.
    pub end: int,
    /// Index where the token's text ends, when a closing quote or white
    /// space ended it.
    pub value_end: Option<int>,
    /// The input ended right after a backslash.
    pub escaped: bool,
    /// The token is unquoted, or its quote was closed.
    pub closed: bool,
}

/// Reads token text from `k`, in quote mode `q`, with a pending backslash
/// when `escaped` holds.
pub open spec fn scan(cs: Seq<char>, q: Option<QuoteStyle>, k: int, escaped: bool) -> Scan
    decreases cs.len() - k,
{
    if k < 0 || k >= cs.len() {
        Scan { value: Seq::empty(), end: k, value_end: None, escaped, closed: q is None }
    } else {
        let c = cs[k];
        if escaped {
            let r = scan(cs, q, k + 1, false);
            Scan { value: seq![c] + r.value, ..r }
        } else if c == '\\' {
            scan(cs, q, k + 1, true)
        } else if closes(q, c) {
            Scan { value: Seq::empty(), end: k + 1, value_end: Some(k), escaped: false, closed: true }
        } else if q is None && is_space(c) {
            Scan { value: Seq::empty(), end: k, value_end: Some(k), escaped: false, closed: true }
        } else {
            let r = scan(cs, q, k + 1, false);
            Scan { value: seq![c] + r.value, ..r }
        }
    }
}

/// Where the text of a token starting at `t` begins.
pub open spec fn value_start_of(cs: Seq<char>, t: int) -> int {
    if quote_of(cs[t]) is Some {
        t + 1
    } else {
        t
    }
}

/// Reading the token that starts at `t`.
pub open spec fn token_scan(cs: Seq<char>, t: int) -> Scan {
    scan(cs, quote_of(cs[t]), value_start_of(cs, t), false)
}

/// The token starting at character index `t`, with byte ranges.
pub open spec fn token_view(cs: Seq<char>, t: int) -> TokenView {
    let r = token_scan(cs, t);
    let ve = match r.value_end {
        Some(e) => e,
        None => r.end,
    };
    TokenView {
        value: r.value,
        start: byte_pos(cs, t),
        end: byte_pos(cs, r.end),
        value_start: byte_pos(cs, value_start_of(cs, t)),
        value_end: byte_pos(cs, ve),
        quote: quote_of(cs[t]),
    }
}

/// The problem the token starting at `t` has, if any. A trailing backslash is
/// reported before an unterminated quote.
pub open spec fn token_problem(cs: Seq<char>, t: int) -> Option<ErrorView> {
    let r = token_scan(cs, t);
    let e = byte_pos(cs, r.end);
    if r.escaped {
        Some(
            ErrorView {
                message: "input ends with an escape character"@,
                start: if e >= 1 {
                    (e - 1) as nat
                } else {
                    0
                },
                end: e,
            },
        )
    } else if quote_of(cs[t]) is Some && !r.closed {
        Some(
            ErrorView {
                message: "unterminated quoted argument"@,
                start: byte_pos(cs, t),
                end: byte_pos(cs, cs.len() as int),
            },
        )
    } else {
        None
    }
}

/// The tokens read from character index `i` on, and the first problem met.
pub open spec fn parse_from(cs: Seq<char>, i: int) -> (Seq<TokenView>, Option<ErrorView>)
    decreases cs.len() - i,
{
    let j = skip_ws(cs, i);
    if i < 0 || j >= cs.len() {
        (Seq::empty(), None)
    } else {
        let end = token_scan(cs, j).end;
        if end <= i || end > cs.len() {
            (Seq::empty(), None)
        } else {
            let rest = parse_from(cs, end);
            let err = match token_problem(cs, j) {
                Some(p) => Some(p),
                None => rest.1,
            };
            (seq![token_view(cs, j)] + rest.0, err)
        }
    }
}

/// The largest character index from `i` on whose byte offset is at most `b`.
pub open spec fn floor_from(cs: Seq<char>, b: int, i: int) -> int
    decreases cs.len() - i,
{
    if i < 0 || i >= cs.len() || byte_pos(cs, i + 1) > b {
        i
    } else {
        floor_from(cs, b, i + 1)
    }
}

/// The first token whose text range contains byte offset `c`.
pub open spec fn first_containing(toks: Seq<TokenView>, c: nat, k: int) -> Option<nat>
    decreases toks.len() - k,
{
    if k < 0 || k >= toks.len() {
        None
    } else if toks[k].value_start <= c <= toks[k].value_end {
        Some(k as nat)
    } else {
        first_containing(toks, c, k + 1)
    }
}

/// The cursor, clamped to the source and moved back to a character boundary.
pub open spec fn clamp_cursor(cs: Seq<char>, cursor: int) -> nat {
    let total = byte_pos(cs, cs.len() as int);
    let c = if cursor < total {
        cursor
    } else {
        total as int
    };
    byte_pos(cs, floor_from(cs, c, 0))
}

/// Parsing `cs` with the cursor at byte offset `cursor`.
pub open spec fn spec_parse_at(cs: Seq<char>, cursor: int) -> ParsedInputView {
    let parsed = parse_from(cs, 0);
    let c = clamp_cursor(cs, cursor);
    ParsedInputView {
        source: cs,
        cursor: c,
        tokens: parsed.0,
        active_token: first_containing(parsed.0, c, 0),
        error: parsed.1,
    }
}

/// Number of leading tokens that end at or before byte offset `c`.
pub open spec fn count_ended(toks: Seq<TokenView>, c: nat, k: int) -> nat
    decreases toks.len() - k,
{
    if k < 0 || k >= toks.len() || toks[k].end > c {
        0
    } else {
        1 + count_ended(toks, c, k + 1)
    }
}

/// The zero-based argument being edited (`None`: the command word).
pub open spec fn spec_active_argument(p: ParsedInputView) -> Option<nat> {
    match p.active_token {
        Some(i) => if i == 0 {
            None
        } else {
            Some((i - 1) as nat)
        },
        None => {
            let n = count_ended(p.tokens, p.cursor, 0);
            if n == 0 {
                None
            } else {
                Some((n - 1) as nat)
            }
        },
    }
}

/// The decoded text of the active token, or nothing.
pub open spec fn spec_active_fragment(p: ParsedInputView) -> Seq<char> {
    match p.active_token {
        Some(i) => if i < p.tokens.len() {
            p.tokens[i as int].value
        } else {
            Seq::empty()
        },
        None => Seq::empty(),
    }
}

/// The byte range that completion replaces.
pub open spec fn spec_replacement(p: ParsedInputView) -> (nat, nat) {
    match p.active_token {
        Some(i) => if i < p.tokens.len() {
            (p.tokens[i as int].value_start, p.tokens[i as int].value_end)
        } else {
            (p.cursor, p.cursor)
        },
        None => (p.cursor, p.cursor),
    }
}

// ── Lemmas ──────────────────────────────────────────────────────────────────

proof fn lemma_skip_ws_bounds(cs: Seq<char>, i: int)
    requires
        0 <= i <= cs.len(),
    ensures
        i <= skip_ws(cs, i) <= cs.len(),
        skip_ws(cs, i) < cs.len() ==> !is_space(cs[skip_ws(cs, i)]),
    decreases cs.len() - i,
{
    if i < cs.len() && is_space(cs[i]) {
        lemma_skip_ws_bounds(cs, i + 1);
    }
}

proof fn lemma_scan_bounds(cs: Seq<char>, q: Option<QuoteStyle>, k: int, e: bool)
    requires
        0 <= k <= cs.len(),
    ensures
        k <= scan(cs, q, k, e).end <= cs.len(),
        scan(cs, q, k, e).value_end matches Some(v) ==> k <= v <= scan(cs, q, k, e).end,
        scan(cs, q, k, e).escaped ==> scan(cs, q, k, e).end == cs.len(),
        scan(cs, q, k, e).escaped && !e ==> scan(cs, q, k, e).end > k,
    decreases cs.len() - k,
{
    if k < cs.len() {
        let c = cs[k];
        if e {
            lemma_scan_bounds(cs, q, k + 1, false);
        } else if c == '\\' {
            lemma_scan_bounds(cs, q, k + 1, true);
        } else if closes(q, c) {
        } else if q is None && is_space(c) {
        } else {
            lemma_scan_bounds(cs, q, k + 1, false);
        }
    }
}

/// A token always consumes at least one character.
proof fn lemma_token_advances(cs: Seq<char>, t: int)
    requires
        0 <= t < cs.len(),
        !is_space(cs[t]),
    ensures
        t < token_scan(cs, t).end <= cs.len(),
        value_start_of(cs, t) <= (match token_scan(cs, t).value_end {
            Some(e) => e,
            None => token_scan(cs, t).end,
        }) <= token_scan(cs, t).end,
        t <= value_start_of(cs, t) <= token_scan(cs, t).end,
{
    let q = quote_of(cs[t]);
    let vs = value_start_of(cs, t);
    lemma_scan_bounds(cs, q, vs, false);
    if q is None {
        let c = cs[t];
        if c == '\\' {
            lemma_scan_bounds(cs, q, t + 1, true);
        } else {
            lemma_scan_bounds(cs, q, t + 1, false);
        }
    }
}


/// The character indices where the tokens read from `i` on start.
pub open spec fn token_starts(cs: Seq<char>, i: int) -> Seq<int>
    decreases cs.len() - i,
{
    let j = skip_ws(cs, i);
    if i < 0 || j >= cs.len() {
        Seq::empty()
    } else {
        let end = token_scan(cs, j).end;
        if end <= i || end > cs.len() {
            Seq::empty()
        } else {
            seq![j] + token_starts(cs, end)
        }
    }
}

/// Every character from `i` up to where `skip_ws` stops is white space.
proof fn lemma_skip_ws_spaces(cs: Seq<char>, i: int)
    requires
        0 <= i <= cs.len(),
    ensures
        forall|k: int| i <= k < skip_ws(cs, i) ==> is_space(#[trigger] cs[k]),
    decreases cs.len() - i,
{
    if i < cs.len() && is_space(cs[i]) {
        lemma_skip_ws_spaces(cs, i + 1);
    }
}

/// Character `k` lies inside the token starting at one of `st`.
pub open spec fn covered(cs: Seq<char>, st: Seq<int>, k: int) -> bool {
    exists|n: int| 0 <= n < st.len() && st[n] <= k < #[trigger] token_scan(cs, st[n]).end
}

/// The tokens read from `i` on, by where they start: each starts at a
/// character that is not white space and ends after it, they follow one
/// another, and every other character from `i` on is white space.
#[verifier::spinoff_prover]
#[verifier::rlimit(60)]
proof fn lemma_token_starts(cs: Seq<char>, i: int)
    requires
        0 <= i <= cs.len(),
    ensures
        ({
            let st = token_starts(cs, i);
            let toks = parse_from(cs, i).0;
            &&& toks.len() == st.len()
            &&& forall|n: int| 0 <= n < st.len() ==> toks[n] == token_view(cs, #[trigger] st[n])
            &&& forall|n: int|
                0 <= n < st.len() ==> i <= #[trigger] st[n] < token_scan(cs, st[n]).end <= cs.len()
                    && !is_space(cs[st[n]])
            &&& forall|n: int|
                0 <= n < st.len() - 1 ==> token_scan(cs, #[trigger] st[n]).end <= st[n + 1]
            &&& forall|k: int| i <= k < cs.len() && !is_space(#[trigger] cs[k]) ==> covered(cs, st, k)
        }),
    decreases cs.len() - i,
{
    let j = skip_ws(cs, i);
    lemma_skip_ws_bounds(cs, i);
    lemma_skip_ws_spaces(cs, i);
    if j < cs.len() {
        lemma_token_advances(cs, j);
        let end = token_scan(cs, j).end;
        lemma_token_starts(cs, end);
        let st = token_starts(cs, i);
        let rest = token_starts(cs, end);
        assert(st == seq![j] + rest);
        let toks = parse_from(cs, i).0;
        assert(toks == seq![token_view(cs, j)] + parse_from(cs, end).0);
        assert forall|n: int| 0 <= n < st.len() implies toks[n] == token_view(cs, #[trigger] st[n]) by {
            if n > 0 {
                assert(st[n] == rest[n - 1]);
            }
        }
        assert forall|n: int|
            0 <= n < st.len() implies i <= #[trigger] st[n] < token_scan(cs, st[n]).end <= cs.len()
                && !is_space(cs[st[n]]) by {
            if n > 0 {
                assert(st[n] == rest[n - 1]);
            }
        }
        assert forall|n: int| 0 <= n < st.len() - 1 implies token_scan(cs, #[trigger] st[n]).end
            <= st[n + 1] by {
            assert(st[n + 1] == rest[n]);
            if n > 0 {
                assert(st[n] == rest[n - 1]);
            }
        }
        assert forall|k: int| i <= k < cs.len() && !is_space(#[trigger] cs[k]) implies covered(
            cs,
            st,
            k,
        ) by {
            if k < end {
                assert(st[0] <= k < token_scan(cs, st[0]).end);
            } else {
                let m = choose|m: int|
                    0 <= m < rest.len() && rest[m] <= k < #[trigger] token_scan(cs, rest[m]).end;
                assert(st[m + 1] == rest[m]);
                assert(st[m + 1] <= k < token_scan(cs, st[m + 1]).end);
            }
        }
    }
}

/// Between the tokens read from `i` on, and before the first, there is only
/// white space.
proof fn lemma_token_gaps(cs: Seq<char>, i: int)
    requires
        0 <= i <= cs.len(),
    ensures
        ({
            let st = token_starts(cs, i);
            &&& st.len() > 0 ==> forall|k: int| i <= k < st[0] ==> is_space(#[trigger] cs[k])
            &&& forall|n: int, k: int|
                #![trigger st[n], cs[k]]
                0 <= n < st.len() - 1 && token_scan(cs, st[n]).end <= k < st[n + 1] ==> is_space(cs[k])
        }),
    decreases cs.len() - i,
{
    let j = skip_ws(cs, i);
    lemma_skip_ws_bounds(cs, i);
    lemma_skip_ws_spaces(cs, i);
    if j < cs.len() {
        lemma_token_advances(cs, j);
        let end = token_scan(cs, j).end;
        lemma_token_gaps(cs, end);
        let st = token_starts(cs, i);
        let rest = token_starts(cs, end);
        assert(st == seq![j] + rest);
        assert forall|n: int, k: int|
            #![trigger st[n], cs[k]]
            0 <= n < st.len() - 1 && token_scan(cs, st[n]).end <= k < st[n + 1] implies is_space(cs[k]) by {
            assert(st[n + 1] == rest[n]);
            if n > 0 {
                assert(st[n] == rest[n - 1]);
            }
        }
    }
}

// ── Parsing ─────────────────────────────────────────────────────────────────

/// Whether `c` closes a token opened with quote `q`.
fn closes_quote(q: Option<QuoteStyle>, c: char) -> (r: bool)
    ensures
        r == closes(q, c),
{
    match q {
        Some(QuoteStyle::Single) => c == '\'',
        Some(QuoteStyle::Double) => c == '"',
        None => false,
    }
}

/// Skips white space from character index `i` (byte offset `ib`); returns the
/// index and byte offset of the next character that is not white space.
fn skip_whitespace(cs: &Vec<char>, i: usize, ib: usize) -> (r: (usize, usize))
    requires
        i <= cs@.len(),
        ib == byte_pos(cs@, i as int),
        byte_pos(cs@, cs@.len() as int) <= usize::MAX,
    ensures
        r.0 == skip_ws(cs@, i as int),
        r.1 == byte_pos(cs@, r.0 as int),
        i <= r.0 <= cs@.len(),
{
    let mut j = i;
    let mut jb = ib;
    while j < cs.len() && char_is_whitespace(cs[j])
        invariant
            i <= j <= cs@.len(),
            jb == byte_pos(cs@, j as int),
            byte_pos(cs@, cs@.len() as int) <= usize::MAX,
            skip_ws(cs@, i as int) == skip_ws(cs@, j as int),
        decreases cs@.len() - j,
    {
        let w = char_width(cs[j]);
        proof {
            lemma_byte_pos_step(cs@, j as int);
            lemma_byte_pos_mono(cs@, j + 1, cs@.len() as int);
        }
        jb = jb + w;
        j = j + 1;
    }
    (j, jb)
}

/// What reading one token produced.
struct TokenRead {
    token: ParsedToken,
    end: usize,
    end_b: usize,
    escaped: bool,
    closed: bool,
}

/// Reads the token starting at character index `t` (byte offset `tb`).
fn read_token(cs: &Vec<char>, t: usize, tb: usize) -> (r: TokenRead)
    requires
        t < cs@.len(),
        !is_space(cs@[t as int]),
        tb == byte_pos(cs@, t as int),
        byte_pos(cs@, cs@.len() as int) <= usize::MAX,
    ensures
        r.token@ == token_view(cs@, t as int),
        r.end == token_scan(cs@, t as int).end,
        r.end_b == byte_pos(cs@, r.end as int),
        r.escaped == token_scan(cs@, t as int).escaped,
        r.closed == token_scan(cs@, t as int).closed,
        t < r.end <= cs@.len(),
{
    let ghost s = cs@;
    proof {
        lemma_token_advances(s, t as int);
        lemma_byte_pos_step(s, t as int);
        lemma_byte_pos_mono(s, t as int + 1, s.len() as int);
    }
    let n = cs.len();
    let first = cs[t];
    let quote = if first == '\'' {
        Some(QuoteStyle::Single)
    } else if first == '"' {
        Some(QuoteStyle::Double)
    } else {
        None
    };
    let mut k: usize = if quote.is_some() {
        t + 1
    } else {
        t
    };
    let mut kb: usize = if quote.is_some() {
        tb + 1
    } else {
        tb
    };
    let vs = k;
    let vsb = kb;
    let ghost fin = scan(s, quote, vs as int, false);
    let mut value: Vec<char> = Vec::new();
    let mut escaped = false;
    let mut closed = quote.is_none();
    let mut ve: Option<usize> = None;
    let mut veb: usize = 0;
    assert(value@ + scan(s, quote, k as int, escaped).value =~= fin.value);
    loop
        invariant_except_break
            fin.value == value@ + scan(s, quote, k as int, escaped).value,
            fin.end == scan(s, quote, k as int, escaped).end,
            fin.value_end == scan(s, quote, k as int, escaped).value_end,
            fin.escaped == scan(s, quote, k as int, escaped).escaped,
            fin.closed == scan(s, quote, k as int, escaped).closed,
            ve is None,
            closed == (quote is None),
        invariant
            vs <= k <= s.len(),
            s == cs@,
            kb == byte_pos(s, k as int),
            byte_pos(s, s.len() as int) <= usize::MAX,
            fin == scan(s, quote, vs as int, false),
        ensures
            fin.value == value@,
            fin.end == k,
            kb == byte_pos(s, k as int),
            fin.escaped == escaped,
            fin.closed == closed,
            match fin.value_end {
                Some(e) => ve matches Some(v) && v == e && veb == byte_pos(s, e),
                None => ve is None,
            },
        decreases s.len() - k,
    {
        if k >= cs.len() {
            assert(value@ + Seq::<char>::empty() =~= value@);
            break ;
        }
        let ch = cs[k];
        let w = char_width(ch);
        proof {
            lemma_byte_pos_step(s, k as int);
            lemma_byte_pos_mono(s, k + 1, s.len() as int);
        }
        if escaped {
            assert(value@.push(ch) + scan(s, quote, k + 1, false).value =~= value@ + (seq![ch]
                + scan(s, quote, k + 1, false).value));
            value.push(ch);
            escaped = false;
            k = k + 1;
            kb = kb + w;
        } else if ch == '\\' {
            escaped = true;
            k = k + 1;
            kb = kb + w;
        } else if closes_quote(quote, ch) {
            assert(value@ + Seq::<char>::empty() =~= value@);
            ve = Some(k);
            veb = kb;
            k = k + 1;
            kb = kb + w;
            closed = true;
            break ;
        } else if quote.is_none() && char_is_whitespace(ch) {
            assert(value@ + Seq::<char>::empty() =~= value@);
            ve = Some(k);
            veb = kb;
            break ;
        } else {
            assert(value@.push(ch) + scan(s, quote, k + 1, false).value =~= value@ + (seq![ch]
                + scan(s, quote, k + 1, false).value));
            value.push(ch);
            k = k + 1;
            kb = kb + w;
        }
    }
    let vend = match ve {
        Some(_) => veb,
        None => kb,
    };
    let token = ParsedToken {
        value: string_from_chars(value.as_slice()),
        range: Range { start: tb, end: kb },
        value_range: Range { start: vsb, end: vend },
        quote,
    };
    TokenRead { token, end: k, end_b: kb, escaped, closed }
}

impl ParsedInput {
    /// Parses an input line with the cursor at its end.
    pub fn parse(source: &str) -> (r: ParsedInput)
        ensures
            r@ == spec_parse_at(source@, source.spec_bytes().len() as int),
    {
        ParsedInput::parse_at(source, source.as_bytes().len())
    }

    /// Parses an input line and identifies the token containing `cursor`.
    pub fn parse_at(source: &str, cursor: usize) -> (r: ParsedInput)
        ensures
            r@ == spec_parse_at(source@, cursor as int),
    {
        let cs = chars_of(source);
        let ghost s = cs@;
        let total = source.as_bytes().len();
        proof {
            lemma_str_len(source);
        }
        let c0 = if cursor < total {
            cursor
        } else {
            total
        };
        // Move the cursor back to a character boundary.
        let mut fi: usize = 0;
        let mut fb: usize = 0;
        assert(s.take(0) =~= Seq::<char>::empty());
        while fi < cs.len() && char_width(cs[fi]) <= c0 - fb
            invariant
                0 <= fi <= s.len(),
                s == cs@,
                fb == byte_pos(s, fi as int),
                fb <= c0,
                byte_pos(s, s.len() as int) == total,
                floor_from(s, c0 as int, 0) == floor_from(s, c0 as int, fi as int),
            decreases s.len() - fi,
        {
            proof {
                lemma_byte_pos_step(s, fi as int);
            }
            fb = fb + char_width(cs[fi]);
            fi = fi + 1;
        }
        proof {
            if fi < s.len() {
                lemma_byte_pos_step(s, fi as int);
            }
        }
        let cursor_b = fb;
        let mut tokens: Vec<ParsedToken> = Vec::new();
        let mut error: Option<ParseError> = None;
        let mut i: usize = 0;
        let mut ib: usize = 0;
        loop
            invariant
                0 <= i <= s.len(),
                s == cs@,
                ib == byte_pos(s, i as int),
                byte_pos(s, s.len() as int) == total,
                parse_from(s, 0).0 == tokens@.map_values(|t: ParsedToken| t@) + parse_from(
                    s,
                    i as int,
                ).0,
                parse_from(s, 0).1 == match error {
                    Some(e) => Some(e@),
                    None => parse_from(s, i as int).1,
                },
            ensures
                parse_from(s, 0).0 == tokens@.map_values(|t: ParsedToken| t@),
                parse_from(s, 0).1 == match error {
                    Some(e) => Some(e@),
                    None => None,
                },
            decreases s.len() - i,
        {
            let (j, jb) = skip_whitespace(&cs, i, ib);
            proof {
                lemma_skip_ws_bounds(s, i as int);
            }
            if j == cs.len() {
                assert(tokens@.map_values(|t: ParsedToken| t@) + Seq::<TokenView>::empty()
                    =~= tokens@.map_values(|t: ParsedToken| t@));
                break ;
            }
            let read = read_token(&cs, j, jb);
            let ghost rest = parse_from(s, read.end as int);
            assert(parse_from(s, i as int).0 == seq![token_view(s, j as int)] + rest.0);
            if error.is_none() {
                if read.escaped {
                    let e = read.end_b;
                    let start = if e >= 1 {
                        e - 1
                    } else {
                        0
                    };
                    error = Some(
                        ParseError {
                            message: "input ends with an escape character",
                            range: Range { start, end: e },
                        },
                    );
                } else if read.token.quote.is_some() && !read.closed {
                    error = Some(
                        ParseError {
                            message: "unterminated quoted argument",
                            range: Range { start: jb, end: total },
                        },
                    );
                }
            }
            let ghost old_tokens = tokens@;
            tokens.push(read.token);
            assert(tokens@.map_values(|t: ParsedToken| t@) =~= old_tokens.map_values(
                |t: ParsedToken| t@,
            ).push(token_view(s, j as int)));
            assert(old_tokens.map_values(|t: ParsedToken| t@) + (seq![token_view(s, j as int)]
                + rest.0) =~= tokens@.map_values(|t: ParsedToken| t@) + rest.0);
            i = read.end;
            ib = read.end_b;
        }
        let ghost toks = tokens@.map_values(|t: ParsedToken| t@);
        let mut k: usize = 0;
        let mut active_token: Option<usize> = None;
        while k < tokens.len()
            invariant_except_break
                active_token is None,
                first_containing(toks, cursor_b as nat, 0) == first_containing(
                    toks,
                    cursor_b as nat,
                    k as int,
                ),
            invariant
                0 <= k <= tokens@.len(),
                toks == tokens@.map_values(|t: ParsedToken| t@),
            ensures
                active_token matches Some(a) ==> first_containing(toks, cursor_b as nat, 0) == Some(a as nat),
                active_token is None ==> first_containing(toks, cursor_b as nat, 0) is None,
            decreases tokens@.len() - k,
        {
            if tokens[k].value_range.start <= cursor_b && cursor_b <= tokens[k].value_range.end {
                active_token = Some(k);
                break ;
            }
            k = k + 1;
        }
        let r = ParsedInput {
            source: string_from_chars(cs.as_slice()),
            cursor: cursor_b,
            tokens,
            active_token,
            error,
        };
        assert(r@.tokens == toks);
        r
    }
}

impl ParsedInput {
    /// The command word, if present.
    pub fn command(&self) -> (r: Option<&str>)
        ensures
            r is None <==> self.tokens@.len() == 0,
            r matches Some(c) ==> c@ == self.tokens@[0].value@,
    {
        if self.tokens.len() > 0 {
            Some(self.tokens[0].value.as_str())
        } else {
            None
        }
    }

    /// The zero-based argument position being edited. `None` means the command
    /// name itself is active; `Some(0)` is the first command argument.
    pub fn active_argument_index(&self) -> (r: Option<usize>)
        ensures
            match r {
                Some(i) => spec_active_argument(self@) == Some(i as nat),
                None => spec_active_argument(self@) is None,
            },
    {
        match self.active_token {
            Some(0) => None,
            Some(index) => Some(index - 1),
            None => {
                let ghost toks = self@.tokens;
                let mut k: usize = 0;
                while k < self.tokens.len() && self.tokens[k].range.end <= self.cursor
                    invariant
                        0 <= k <= self.tokens@.len(),
                        toks == self@.tokens,
                        count_ended(toks, self.cursor as nat, 0) == k + count_ended(
                            toks,
                            self.cursor as nat,
                            k as int,
                        ),
                    decreases self.tokens@.len() - k,
                {
                    k = k + 1;
                }
                if k == 0 {
                    None
                } else {
                    Some(k - 1)
                }
            },
        }
    }

    /// The raw fragment at the cursor, decoded as an argument value.
    pub fn active_fragment(&self) -> (r: &str)
        ensures
            r@ == spec_active_fragment(self@),
    {
        proof {
            reveal_strlit("");
        }
        match self.active_token {
            Some(index) => if index < self.tokens.len() {
                self.tokens[index].value.as_str()
            } else {
                ""
            },
            None => "",
        }
    }

    /// The source range completion should replace. A zero-width range at the
    /// cursor is returned when the user is beginning a new argument.
    pub fn replacement_range(&self) -> (r: Range<usize>)
        ensures
            (r.start as nat, r.end as nat) == spec_replacement(self@),
    {
        match self.active_token {
            Some(index) => if index < self.tokens.len() {
                copy_range(&self.tokens[index].value_range)
            } else {
                Range { start: self.cursor, end: self.cursor }
            },
            None => Range { start: self.cursor, end: self.cursor },
        }
    }
}
// ── Laws ────────────────────────────────────────────────────────────────────

/// Byte offset `b` of `cs` falls on a character boundary.
pub open spec fn on_boundary(cs: Seq<char>, b: nat) -> bool {
    exists|k: int| 0 <= k <= cs.len() && byte_pos(cs, k) == b
}

/// The token of `toks` that `start` is the byte offset of.
proof fn lemma_token_bytes(cs: Seq<char>, j: int)
    requires
        0 <= j < cs.len(),
        !is_space(cs[j]),
    ensures
        ({
            let t = token_view(cs, j);
            let ve = match token_scan(cs, j).value_end {
                Some(e) => e,
                None => token_scan(cs, j).end,
            };
            &&& t.start < t.end <= byte_pos(cs, cs.len() as int)
            &&& t.start <= t.value_start <= t.value_end <= t.end
            &&& t.quote is Some ==> t.value_start == t.start + 1
            &&& t.start == byte_pos(cs, j)
            &&& t.end == byte_pos(cs, token_scan(cs, j).end)
            &&& t.value_start == byte_pos(cs, value_start_of(cs, j))
            &&& t.value_end == byte_pos(cs, ve)
            &&& 0 <= value_start_of(cs, j) <= ve <= token_scan(cs, j).end <= cs.len()
        }),
{
    lemma_token_advances(cs, j);
    let e = token_scan(cs, j).end;
    let vs = value_start_of(cs, j);
    let ve = match token_scan(cs, j).value_end {
        Some(x) => x,
        None => e,
    };
    lemma_byte_pos_mono(cs, j, e);
    lemma_byte_pos_mono(cs, e, cs.len() as int);
    lemma_byte_pos_mono(cs, j, vs);
    lemma_byte_pos_mono(cs, vs, ve);
    lemma_byte_pos_mono(cs, ve, e);
    if quote_of(cs[j]) is Some {
        lemma_byte_pos_step(cs, j);
    }
}

/// Tokens are well formed and in order: each is non-empty and inside the
/// source, its text range lies inside its range, a quoted token's text
/// starts just after its quote, and each token ends before the next starts.
pub proof fn law_tokens_well_formed(cs: Seq<char>, cursor: int)
    ensures
        ({
            let t = spec_parse_at(cs, cursor).tokens;
            &&& forall|i: int|
                0 <= i < t.len() ==> {
                    &&& (#[trigger] t[i]).start < t[i].end <= byte_pos(cs, cs.len() as int)
                    &&& t[i].start <= t[i].value_start <= t[i].value_end <= t[i].end
                    &&& t[i].quote is Some ==> t[i].value_start == t[i].start + 1
                }
            &&& forall|i: int| 0 <= i < t.len() - 1 ==> (#[trigger] t[i]).end <= t[i + 1].start
        }),
{
    lemma_token_starts(cs, 0);
    let st = token_starts(cs, 0);
    let t = spec_parse_at(cs, cursor).tokens;
    assert forall|i: int| 0 <= i < t.len() implies {
        &&& (#[trigger] t[i]).start < t[i].end <= byte_pos(cs, cs.len() as int)
        &&& t[i].start <= t[i].value_start <= t[i].value_end <= t[i].end
        &&& t[i].quote is Some ==> t[i].value_start == t[i].start + 1
    } by {
        assert(t[i] == token_view(cs, st[i]));
        lemma_token_bytes(cs, st[i]);
    }
    assert forall|i: int| 0 <= i < t.len() - 1 implies (#[trigger] t[i]).end <= t[i + 1].start by {
        assert(t[i] == token_view(cs, st[i]));
        assert(t[i + 1] == token_view(cs, st[i + 1]));
        lemma_token_bytes(cs, st[i]);
        lemma_token_bytes(cs, st[i + 1]);
        lemma_byte_pos_mono(cs, token_scan(cs, st[i]).end, st[i + 1]);
    }
}

/// Tokens cover all input that is not white space: each token starts at a
/// character that is not white space, and every such character lies inside
/// some token's range.
pub proof fn law_tokens_cover_input(cs: Seq<char>, cursor: int)
    ensures
        ({
            let t = spec_parse_at(cs, cursor).tokens;
            &&& forall|i: int|
                0 <= i < t.len() ==> exists|k: int|
                    #![trigger cs[k]]
                    0 <= k < cs.len() && byte_pos(cs, k) == (#[trigger] t[i]).start && !is_space(cs[k])
            &&& forall|k: int|
                0 <= k < cs.len() && !is_space(#[trigger] cs[k]) ==> exists|i: int|
                    0 <= i < t.len() && (#[trigger] t[i]).start <= byte_pos(cs, k) < t[i].end
        }),
{
    lemma_token_starts(cs, 0);
    let st = token_starts(cs, 0);
    let t = spec_parse_at(cs, cursor).tokens;
    assert forall|i: int| 0 <= i < t.len() implies exists|k: int|
        #![trigger cs[k]]
        0 <= k < cs.len() && byte_pos(cs, k) == (#[trigger] t[i]).start && !is_space(cs[k]) by {
        assert(t[i] == token_view(cs, st[i]));
        lemma_token_bytes(cs, st[i]);
    }
    assert forall|k: int| 0 <= k < cs.len() && !is_space(#[trigger] cs[k]) implies exists|i: int|
        0 <= i < t.len() && (#[trigger] t[i]).start <= byte_pos(cs, k) < t[i].end by {
        assert(covered(cs, st, k));
        let n = choose|n: int| 0 <= n < st.len() && st[n] <= k < #[trigger] token_scan(cs, st[n]).end;
        assert(t[n] == token_view(cs, st[n]));
        lemma_token_bytes(cs, st[n]);
        lemma_byte_pos_mono(cs, st[n], k);
        lemma_byte_pos_mono(cs, k, token_scan(cs, st[n]).end);
    }
}

/// There is no command exactly when the source is all white space.
pub proof fn law_no_command_iff_blank(cs: Seq<char>, cursor: int)
    ensures
        spec_parse_at(cs, cursor).tokens.len() == 0 <==> forall|k: int| 0 <= k < cs.len() ==> is_space(#[trigger] cs[k]),
{
    lemma_token_starts(cs, 0);
    let st = token_starts(cs, 0);
    if st.len() > 0 {
        assert(!is_space(cs[st[0]]));
    } else {
        assert forall|k: int| 0 <= k < cs.len() implies is_space(#[trigger] cs[k]) by {
            if !is_space(cs[k]) {
                assert(covered(cs, st, k));
            }
        }
    }
}

proof fn lemma_first_containing(toks: Seq<TokenView>, c: nat, k: int)
    requires
        0 <= k,
    ensures
        match first_containing(toks, c, k) {
            Some(i) => k <= i < toks.len() && toks[i as int].value_start <= c <= toks[i as int].value_end
                && forall|j: int| k <= j < i ==> !(toks[j].value_start <= c <= #[trigger] toks[j].value_end),
            None => forall|j: int| k <= j < toks.len() ==> !(toks[j].value_start <= c <= #[trigger] toks[j].value_end),
        },
    decreases toks.len() - k,
{
    if k < toks.len() && !(toks[k].value_start <= c <= toks[k].value_end) {
        lemma_first_containing(toks, c, k + 1);
    }
}

/// The active token is the first token whose text range holds the cursor,
/// both ends included; there is none when no token's does.
pub proof fn law_active_token_first_containing(cs: Seq<char>, cursor: int)
    ensures
        ({
            let p = spec_parse_at(cs, cursor);
            let t = p.tokens;
            let c = p.cursor;
            match p.active_token {
                Some(i) => i < t.len() && t[i as int].value_start <= c <= t[i as int].value_end && forall|j: int|
                    0 <= j < i ==> !(t[j].value_start <= c <= #[trigger] t[j].value_end),
                None => forall|j: int| 0 <= j < t.len() ==> !(t[j].value_start <= c <= #[trigger] t[j].value_end),
            }
        }),
{
    let p = spec_parse_at(cs, cursor);
    lemma_first_containing(p.tokens, p.cursor, 0);
}

proof fn lemma_floor_from(cs: Seq<char>, b: int, i: int)
    requires
        0 <= i <= cs.len(),
        byte_pos(cs, i) <= b,
    ensures
        i <= floor_from(cs, b, i) <= cs.len(),
        byte_pos(cs, floor_from(cs, b, i)) <= b,
        floor_from(cs, b, i) < cs.len() ==> byte_pos(cs, floor_from(cs, b, i) + 1) > b,
    decreases cs.len() - i,
{
    if i < cs.len() && byte_pos(cs, i + 1) <= b {
        lemma_floor_from(cs, b, i + 1);
    }
}

/// The cursor is clamped to the source and moved back to a character
/// boundary: it is the largest boundary at or before the smaller of the
/// given cursor and the source's length in bytes.
pub proof fn law_cursor_clamped(cs: Seq<char>, cursor: int)
    requires
        cursor >= 0,
    ensures
        ({
            let p = spec_parse_at(cs, cursor);
            let total = byte_pos(cs, cs.len() as int);
            let m = if cursor < total {
                cursor
            } else {
                total as int
            };
            &&& p.source == cs
            &&& p.cursor <= total
            &&& exists|k: int|
                0 <= k <= cs.len() && p.cursor == #[trigger] byte_pos(cs, k) && byte_pos(cs, k) <= m && (k
                    < cs.len() ==> byte_pos(cs, k + 1) > m)
        }),
{
    let total = byte_pos(cs, cs.len() as int);
    let m = if cursor < total {
        cursor
    } else {
        total as int
    };
    assert(cs.take(0) =~= Seq::<char>::empty());
    lemma_floor_from(cs, m, 0);
    let k = floor_from(cs, m, 0);
    lemma_byte_pos_mono(cs, k, cs.len() as int);
    assert(spec_parse_at(cs, cursor).cursor == byte_pos(cs, k));
}

proof fn lemma_count_ended(toks: Seq<TokenView>, c: nat, k: int)
    requires
        0 <= k <= toks.len(),
    ensures
        k + count_ended(toks, c, k) <= toks.len(),
        forall|j: int| k <= j < k + count_ended(toks, c, k) ==> (#[trigger] toks[j]).end <= c,
        k + count_ended(toks, c, k) < toks.len() ==> toks[k + count_ended(toks, c, k)].end > c,
    decreases toks.len() - k,
{
    if k < toks.len() && toks[k].end <= c {
        lemma_count_ended(toks, c, k + 1);
    }
}

/// The argument being edited follows the active token: none for the command
/// word, else the token's position less one; with no active token, the
/// argument after the last of the leading tokens that end at or before the
/// cursor, and none when no token does.
pub proof fn law_active_argument(cs: Seq<char>, cursor: int)
    ensures
        ({
            let p = spec_parse_at(cs, cursor);
            let n = count_ended(p.tokens, p.cursor, 0);
            &&& n <= p.tokens.len()
            &&& forall|j: int| 0 <= j < n ==> (#[trigger] p.tokens[j]).end <= p.cursor
            &&& n < p.tokens.len() ==> p.tokens[n as int].end > p.cursor
            &&& spec_active_argument(p) == match p.active_token {
                Some(i) => if i == 0 {
                    None
                } else {
                    Some((i - 1) as nat)
                },
                None => if n == 0 {
                    None
                } else {
                    Some((n - 1) as nat)
                },
            }
        }),
{
    let p = spec_parse_at(cs, cursor);
    lemma_count_ended(p.tokens, p.cursor, 0);
}

/// The range completion replaces is the active token's text range, or an
/// empty range at the cursor; it lies inside the source, on character
/// boundaries.
pub proof fn law_replacement_on_boundaries(cs: Seq<char>, cursor: int)
    requires
        cursor >= 0,
    ensures
        ({
            let p = spec_parse_at(cs, cursor);
            let r = spec_replacement(p);
            &&& r == match p.active_token {
                Some(i) => (p.tokens[i as int].value_start, p.tokens[i as int].value_end),
                None => (p.cursor, p.cursor),
            }
            &&& r.0 <= r.1 <= byte_pos(cs, cs.len() as int)
            &&& on_boundary(cs, r.0)
            &&& on_boundary(cs, r.1)
        }),
{
    let p = spec_parse_at(cs, cursor);
    law_active_token_first_containing(cs, cursor);
    law_cursor_clamped(cs, cursor);
    match p.active_token {
        Some(i) => {
            lemma_token_starts(cs, 0);
            let st = token_starts(cs, 0);
            assert(p.tokens[i as int] == token_view(cs, st[i as int]));
            lemma_token_bytes(cs, st[i as int]);
            let j = st[i as int];
            let ve = match token_scan(cs, j).value_end {
                Some(e) => e,
                None => token_scan(cs, j).end,
            };
            assert(byte_pos(cs, value_start_of(cs, j)) == p.tokens[i as int].value_start);
            assert(byte_pos(cs, ve) == p.tokens[i as int].value_end);
        },
        None => {},
    }
}

/// `c` needs no special reading: it is neither a backslash nor a quote.
pub open spec fn plain_char(c: char) -> bool {
    c != '\\' && c != '\'' && c != '"'
}

proof fn lemma_scan_plain_run(cs: Seq<char>, k: int)
    requires
        0 <= k <= cs.len(),
        forall|m: int| 0 <= m < cs.len() ==> plain_char(#[trigger] cs[m]),
    ensures
        ({
            let r = scan(cs, None, k, false);
            &&& !r.escaped
            &&& r.closed
            &&& k <= r.end <= cs.len()
            &&& r.value == cs.subrange(k, r.end)
            &&& forall|m: int| k <= m < r.end ==> !is_space(#[trigger] cs[m])
            &&& r.end == cs.len() || is_space(cs[r.end])
            &&& match r.value_end {
                Some(v) => v == r.end,
                None => r.end == cs.len(),
            }
        }),
    decreases cs.len() - k,
{
    if k < cs.len() {
        let c = cs[k];
        assert(plain_char(c));
        if !is_space(c) {
            lemma_scan_plain_run(cs, k + 1);
            let r = scan(cs, None, k + 1, false);
            assert(seq![c] + cs.subrange(k + 1, r.end) =~= cs.subrange(k, r.end));
        } else {
            assert(cs.subrange(k, k) =~= Seq::<char>::empty());
        }
    } else {
        assert(cs.subrange(k, k) =~= Seq::<char>::empty());
    }
}

proof fn lemma_parse_plain_no_error(cs: Seq<char>, i: int)
    requires
        0 <= i <= cs.len(),
        forall|m: int| 0 <= m < cs.len() ==> plain_char(#[trigger] cs[m]),
    ensures
        parse_from(cs, i).1 is None,
    decreases cs.len() - i,
{
    let j = skip_ws(cs, i);
    lemma_skip_ws_bounds(cs, i);
    if j < cs.len() {
        lemma_token_advances(cs, j);
        assert(plain_char(cs[j]));
        lemma_scan_plain_run(cs, j);
        lemma_parse_plain_no_error(cs, token_scan(cs, j).end);
    }
}

/// The facts about one token of plain input (see
/// [`law_plain_input_splits_on_whitespace`]).
pub open spec fn plain_token(cs: Seq<char>, t: TokenView) -> bool {
    &&& t.quote is None
    &&& t.value_start == t.start
    &&& t.value_end == t.end
    &&& exists|j: int, e: int|
        #![trigger cs.subrange(j, e)]
        0 <= j < e <= cs.len() && byte_pos(cs, j) == t.start && byte_pos(cs, e) == t.end && t.value
            == cs.subrange(j, e) && (forall|m: int| j <= m < e ==> !is_space(#[trigger] cs[m])) && (j == 0
            || is_space(cs[j - 1])) && (e == cs.len() || is_space(cs[e]))
}

#[verifier::spinoff_prover]
#[verifier::rlimit(80)]
proof fn lemma_plain_token(cs: Seq<char>, i: int)
    requires
        forall|m: int| 0 <= m < cs.len() ==> plain_char(#[trigger] cs[m]),
        0 <= i < token_starts(cs, 0).len(),
    ensures
        plain_token(cs, token_view(cs, token_starts(cs, 0)[i])),
{
    let st = token_starts(cs, 0);
    let j = st[i];
    assert(0 <= j < cs.len() && !is_space(cs[j])) by {
        lemma_token_starts(cs, 0);
    }
    assert(j > 0 ==> is_space(cs[j - 1])) by {
        lemma_token_starts(cs, 0);
        lemma_token_gaps(cs, 0);
        if j > 0 && i > 0 {
            let pj = st[i - 1];
            let pe = token_scan(cs, pj).end;
            assert(plain_char(cs[pj]));
            lemma_scan_plain_run(cs, pj);
            assert(pe <= j);
            if pe == j {
                assert(!is_space(cs[j]));
            }
            assert(pe <= j - 1 < st[(i - 1) + 1]);
        }
    }
    assert(plain_char(cs[j]));
    lemma_scan_plain_run(cs, j);
    lemma_token_advances(cs, j);
    let e = token_scan(cs, j).end;
    let t = token_view(cs, j);
    assert(t.value == cs.subrange(j, e));
    assert(0 <= j < e <= cs.len() && byte_pos(cs, j) == t.start && byte_pos(cs, e) == t.end);
}

/// Input with no backslash and no quote splits on white space: there is no
/// problem, and each token is unquoted, its text range is its range, and its
/// text is a maximal run of characters that are not white space. With the
/// tokens in order and covering all such characters, this is the split at
/// white space.
pub proof fn law_plain_input_splits_on_whitespace(cs: Seq<char>, cursor: int)
    requires
        forall|m: int| 0 <= m < cs.len() ==> plain_char(#[trigger] cs[m]),
    ensures
        spec_parse_at(cs, cursor).error is None,
        forall|i: int|
            0 <= i < spec_parse_at(cs, cursor).tokens.len() ==> plain_token(
                cs,
                #[trigger] spec_parse_at(cs, cursor).tokens[i],
            ),
{
    lemma_parse_plain_no_error(cs, 0);
    lemma_token_starts(cs, 0);
    let st = token_starts(cs, 0);
    let p = spec_parse_at(cs, cursor);
    assert forall|i: int| 0 <= i < p.tokens.len() implies plain_token(cs, #[trigger] p.tokens[i]) by {
        assert(p.tokens[i] == token_view(cs, st[i]));
        lemma_plain_token(cs, i);
    }
}

} // verus!
