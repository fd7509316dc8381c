//! Arguments handed to a console command.

use crate::parser::{floor_from, ParsedInput, ParsedInputView, spec_parse_at};
use crate::text::{byte_pos, chars_of, lemma_byte_pos_step, lemma_str_len, string_from_chars};
use vstd::prelude::*;
use vstd::string::StringExecFns;

verus! {

broadcast use vstd::string::group_string_axioms;

/// Parsed arguments passed to a console command system.
///
/// Dereferences to `[String]`, so slice methods (`len`, `is_empty`, `iter`,
/// `join`, …) work directly. The command word itself is not included.
pub struct Args {
    values: Vec<String>,
    /// For arguments read from an input line: the source text from each
    /// argument to the end of the last one, quotes and escapes kept.
    raw_tails: Option<Vec<String>>,
}

/// The model of [`Args`].
pub struct ArgsView {
    pub values: Seq<Seq<char>>,
    pub raw_tails: Option<Seq<Seq<char>>>,
}

impl View for Args {
    type V = ArgsView;

    closed spec fn view(&self) -> ArgsView {
        ArgsView {
            values: self.values@.map_values(|s: String| s@),
            raw_tails: match self.raw_tails {
                Some(t) => Some(t@.map_values(|s: String| s@)),
                None => None,
            },
        }
    }
}

/// `parts` joined with single spaces.
pub open spec fn join_space(parts: Seq<Seq<char>>) -> Seq<char>
    decreases parts.len(),
{
    if parts.len() == 0 {
        Seq::empty()
    } else if parts.len() == 1 {
        parts[0]
    } else {
        join_space(parts.drop_last()) + seq![' '] + parts.last()
    }
}

/// The arguments from `start` on, joined with spaces.
pub open spec fn spec_rest(values: Seq<Seq<char>>, start: int) -> Seq<char> {
    if start < values.len() {
        join_space(values.skip(start))
    } else {
        Seq::empty()
    }
}

/// The source text of the arguments from `start` on.
pub open spec fn spec_raw_rest(a: ArgsView, start: int) -> Seq<char> {
    match a.raw_tails {
        Some(t) => if 0 <= start < t.len() {
            t[start]
        } else {
            Seq::empty()
        },
        None => spec_rest(a.values, start),
    }
}

/// The characters of `cs` lying between byte offsets `from` and `to`.
pub open spec fn byte_slice(cs: Seq<char>, from: int, to: int) -> Seq<char> {
    let i = floor_from(cs, from, 0);
    let j = floor_from(cs, to, 0);
    if 0 <= i <= j <= cs.len() {
        cs.subrange(i, j)
    } else {
        Seq::empty()
    }
}

/// The arguments of a parsed line: every token after the command word.
pub open spec fn parsed_arguments(p: ParsedInputView) -> Seq<Seq<char>> {
    if p.tokens.len() == 0 {
        Seq::empty()
    } else {
        p.tokens.skip(1).map_values(|t: crate::parser::TokenView| t.value)
    }
}

/// The source text of each argument of a parsed line, to the end of the
/// last token.
pub open spec fn parsed_raw_tails(p: ParsedInputView) -> Seq<Seq<char>> {
    if p.tokens.len() == 0 {
        Seq::empty()
    } else {
        Seq::new(
            (p.tokens.len() - 1) as nat,
            |i: int| byte_slice(p.source, p.tokens[i + 1].start as int, p.tokens.last().end as int),
        )
    }
}

/// A copy of a list of strings.
pub fn copy_strings(v: &Vec<String>) -> (r: Vec<String>)
    ensures
        r@.map_values(|s: String| s@) == v@.map_values(|s: String| s@),
{
    let mut r: Vec<String> = Vec::new();
    let mut i: usize = 0;
    while i < v.len()
        invariant
            0 <= i <= v@.len(),
            r@.len() == i,
            forall|k: int| 0 <= k < i ==> #[trigger] r@[k]@ == v@[k]@,
        decreases v@.len() - i,
    {
        r.push(v[i].clone());
        i = i + 1;
    }
    assert(r@.map_values(|s: String| s@) =~= v@.map_values(|s: String| s@));
    r
}

/// The character index of byte offset `b` in `cs` (moved back to a character
/// boundary).
pub(crate) fn char_index_of(cs: &Vec<char>, b: usize) -> (r: usize)
    ensures
        r == floor_from(cs@, b as int, 0),
        r <= cs@.len(),
{
    let mut i: usize = 0;
    let mut ib: usize = 0;
    assert(cs@.take(0) =~= Seq::<char>::empty());
    while i < cs.len() && crate::text::char_width(cs[i]) <= b - ib
        invariant
            0 <= i <= cs@.len(),
            ib == byte_pos(cs@, i as int),
            ib <= b,
            floor_from(cs@, b as int, 0) == floor_from(cs@, b as int, i as int),
        decreases cs@.len() - i,
    {
        proof {
            lemma_byte_pos_step(cs@, i as int);
        }
        ib = ib + crate::text::char_width(cs[i]);
        i = i + 1;
    }
    proof {
        if i < cs@.len() {
            lemma_byte_pos_step(cs@, i as int);
        }
    }
    i
}

impl Args {
    /// Arguments with no source text of their own.
    pub fn new(values: Vec<String>) -> (r: Args)
        ensures
            r@.values == values@.map_values(|s: String| s@),
            r@.raw_tails is None,
    {
        Args { values, raw_tails: None }
    }

    /// The arguments of a parsed input line: the tokens after the command word.
    pub fn from_parsed(parsed: &ParsedInput) -> (r: Args)
        ensures
            r@.values == parsed_arguments(parsed@),
            r@.raw_tails == Some(parsed_raw_tails(parsed@)),
    {
        let cs = chars_of(parsed.source.as_str());
        let mut values: Vec<String> = Vec::new();
        let mut tails: Vec<String> = Vec::new();
        let n = parsed.tokens.len();
        if n == 0 {
            let r = Args { values, raw_tails: Some(tails) };
            assert(r@.values =~= parsed_arguments(parsed@));
            assert(r@.raw_tails->0 =~= parsed_raw_tails(parsed@));
            return r;
        }
        let end = char_index_of(&cs, parsed.tokens[n - 1].range.end);
        let ghost toks = parsed@.tokens;
        let mut i: usize = 1;
        while i < n
            invariant
                1 <= i <= n,
                n == parsed.tokens@.len(),
                toks == parsed@.tokens,
                cs@ == parsed.source@,
                end == floor_from(cs@, toks.last().end as int, 0),
                end <= cs@.len(),
                values@.len() == i - 1,
                tails@.len() == i - 1,
                forall|k: int| 0 <= k < i - 1 ==> #[trigger] values@[k]@ == toks[k + 1].value,
                forall|k: int|
                    0 <= k < i - 1 ==> #[trigger] tails@[k]@ == byte_slice(
                        cs@,
                        toks[k + 1].start as int,
                        toks.last().end as int,
                    ),
            decreases n - i,
        {
            values.push(parsed.tokens[i].value.clone());
            let start = char_index_of(&cs, parsed.tokens[i].range.start);
            let tail = if start <= end {
                string_from_chars(&cs.as_slice()[start..end])
            } else {
                String::new()
            };
            assert(tail@ == byte_slice(cs@, toks[i as int].start as int, toks.last().end as int));
            tails.push(tail);
            i = i + 1;
        }
        let r = Args { values, raw_tails: Some(tails) };
        assert(r@.values =~= parsed_arguments(parsed@));
        assert(r@.raw_tails->0 =~= parsed_raw_tails(parsed@));
        r
    }

    /// Returns the argument at `index` as a `&str`, or `None` if out of bounds.
    pub fn get(&self, index: usize) -> (r: Option<&str>)
        ensures
            index < self@.values.len() ==> (r matches Some(s) && s@ == self@.values[index as int]),
            index >= self@.values.len() ==> r is None,
    {
        if index < self.values.len() {
            Some(self.values[index].as_str())
        } else {
            None
        }
    }

    /// Number of arguments.
    pub fn len(&self) -> (r: usize)
        ensures
            r == self@.values.len(),
    {
        self.values.len()
    }

    /// Parses the argument at `index` as `T`.
    ///
    /// Returns `None` if the index is out of bounds or the value fails to parse.
    pub fn parse<T: std::str::FromStr>(&self, index: usize) -> (r: Option<T>)
        ensures
            index >= self@.values.len() ==> r is None,
    {
        match self.get(index) {
            Some(value) => parse_value::<T>(value),
            None => None,
        }
    }

    /// Joins all arguments from `start` onwards with spaces.
    ///
    /// Returns an empty string when `start` is past the end.
    pub fn rest(&self, start: usize) -> (r: String)
        ensures
            r@ == spec_rest(self@.values, start as int),
    {
        let mut r = String::new();
        if start >= self.values.len() {
            return r;
        }
        let ghost parts = self@.values.skip(start as int);
        let mut i: usize = start;
        while i < self.values.len()
            invariant
                start <= i <= self.values@.len(),
                start < self.values@.len(),
                parts == self@.values.skip(start as int),
                r@ == join_space(parts.take(i - start)),
            decreases self.values@.len() - i,
        {
            assert(parts.take(i + 1 - start).drop_last() =~= parts.take(i - start));
            assert(parts[i - start] == self@.values[i as int]);
            if i > start {
                r.append(" ");
                proof {
                    reveal_strlit(" ");
                }
            } else {
                assert(parts.take(0) =~= Seq::<Seq<char>>::empty());
            }
            r.append(self.values[i].as_str());
            proof {
                if i == start {
                    assert(r@ =~= join_space(parts.take(1)));
                } else {
                    assert(r@ =~= join_space(parts.take(i + 1 - start)));
                }
            }
            i = i + 1;
        }
        assert(parts.take(self.values@.len() - start) =~= parts);
        r
    }

    /// The source text from argument `start` to the end of the last argument,
    /// with quotes and escapes as typed. Arguments built from plain values have
    /// no source text; for those this is [`Self::rest`].
    pub fn raw_rest(&self, start: usize) -> (r: String)
        ensures
            r@ == spec_raw_rest(self@, start as int),
    {
        match &self.raw_tails {
            Some(tails) => if start < tails.len() {
                tails[start].clone()
            } else {
                String::new()
            },
            None => self.rest(start),
        }
    }
}

/// Parses `value` as a `T` (`str::parse`); `None` when it does not parse.
#[verifier::external_body]
fn parse_value<T: std::str::FromStr>(value: &str) -> Option<T> {
    value.parse().ok()
}

impl From<Vec<String>> for Args {
    fn from(v: Vec<String>) -> (r: Args) {
        Args { values: v, raw_tails: None }
    }
}

impl vstd::std_specs::convert::FromSpecImpl<Vec<String>> for Args {
    open spec fn obeys_from_spec() -> bool {
        true
    }

    closed spec fn from_spec(v: Vec<String>) -> Args {
        Args { values: v, raw_tails: None }
    }
}

impl std::ops::Deref for Args {
    type Target = [String];

    fn deref(&self) -> (r: &[String])
        ensures
            r@.map_values(|s: String| s@) == self@.values,
    {
        self.values.as_slice()
    }
}

} // verus!
