//! Character-level helpers shared by the parser, completion and persistence.

use vstd::prelude::*;
use vstd::string::StringSliceAdditionalSpecFns;

verus! {

broadcast use vstd::string::group_string_axioms;

/// The Unicode `White_Space` property, which `char::is_whitespace` reports.
pub open spec fn is_space(c: char) -> bool {
    let v = c as u32;
    ||| 0x09 <= v <= 0x0D
    ||| v == 0x20
    ||| v == 0x85
    ||| v == 0xA0
    ||| v == 0x1680
    ||| 0x2000 <= v <= 0x200A
    ||| v == 0x2028
    ||| v == 0x2029
    ||| v == 0x202F
    ||| v == 0x205F
    ||| v == 0x3000
}

/// Whether `c` is Unicode white space.
pub fn char_is_whitespace(c: char) -> (r: bool)
    ensures
        r == is_space(c),
{
    let v = c as u32;
    (0x09 <= v && v <= 0x0D) || v == 0x20 || v == 0x85 || v == 0xA0 || v == 0x1680 || (0x2000 <= v
        && v <= 0x200A) || v == 0x2028 || v == 0x2029 || v == 0x202F || v == 0x205F || v == 0x3000
}

/// Number of bytes in the UTF-8 encoding of `c`.
pub open spec fn width(c: char) -> nat {
    let v = c as u32;
    if v <= 0x7F {
        1
    } else if v <= 0x7FF {
        2
    } else if v <= 0xFFFF {
        3
    } else {
        4
    }
}

/// Number of bytes in the UTF-8 encoding of `s`.
pub open spec fn utf8_len(s: Seq<char>) -> nat
    decreases s.len(),
{
    if s.len() == 0 {
        0
    } else {
        width(s[0]) + utf8_len(s.drop_first())
    }
}

/// Byte offset of the character at index `i` of `s`.
pub open spec fn byte_pos(s: Seq<char>, i: int) -> nat {
    utf8_len(s.take(i))
}

/// Byte length of a character, as `char::len_utf8` reports it.
pub fn char_width(c: char) -> (r: usize)
    ensures
        r == width(c),
        1 <= r <= 4,
{
    let v = c as u32;
    if v <= 0x7F {
        1
    } else if v <= 0x7FF {
        2
    } else if v <= 0xFFFF {
        3
    } else {
        4
    }
}

/// The byte length is additive over concatenation.
pub proof fn lemma_utf8_len_concat(a: Seq<char>, b: Seq<char>)
    ensures
        utf8_len(a + b) == utf8_len(a) + utf8_len(b),
    decreases a.len(),
{
    if a.len() > 0 {
        assert((a + b).drop_first() =~= a.drop_first() + b);
        lemma_utf8_len_concat(a.drop_first(), b);
    } else {
        assert(a + b =~= b);
    }
}

/// Extending a prefix by one character adds that character's width.
pub proof fn lemma_byte_pos_step(s: Seq<char>, i: int)
    requires
        0 <= i < s.len(),
    ensures
        byte_pos(s, i + 1) == byte_pos(s, i) + width(s[i]),
{
    assert(s.take(i + 1) =~= s.take(i) + seq![s[i]]);
    lemma_utf8_len_concat(s.take(i), seq![s[i]]);
    assert(seq![s[i]].drop_first() =~= Seq::<char>::empty());
    assert(utf8_len(Seq::<char>::empty()) == 0);
    assert(utf8_len(seq![s[i]]) == width(s[i]));
}

/// Byte offsets grow with the character index.
pub proof fn lemma_byte_pos_mono(s: Seq<char>, i: int, j: int)
    requires
        0 <= i <= j <= s.len(),
    ensures
        byte_pos(s, i) <= byte_pos(s, j),
        i < j ==> byte_pos(s, i) < byte_pos(s, j),
    decreases j - i,
{
    if i < j {
        lemma_byte_pos_step(s, j - 1);
        lemma_byte_pos_mono(s, i, j - 1);
    }
}

/// The encoded length of a string is the sum of its character widths.
pub proof fn lemma_utf8_len_encode(s: Seq<char>)
    ensures
        utf8_len(s) == vstd::utf8::encode_utf8(s).len(),
    decreases s.len(),
{
    if s.len() > 0 {
        lemma_utf8_len_encode(s.drop_first());
        let v = s[0] as u32;
        assert(vstd::utf8::is_scalar(v)) by {
            vstd::utf8::char_is_scalar(s[0]);
        }
        assert(vstd::utf8::encode_scalar(v).len() == width(s[0]));
    }
}

/// `byte_pos` at the end is the byte length of a `str`.
pub proof fn lemma_str_len(s: &str)
    ensures
        byte_pos(s@, s@.len() as int) == s.spec_bytes().len(),
{
    assert(s@.take(s@.len() as int) =~= s@);
    lemma_utf8_len_encode(s@);
}

/// ASCII lower-casing of one character, as `char::to_ascii_lowercase` does.
pub open spec fn lower(c: char) -> char {
    if 'A' <= c <= 'Z' {
        ((c as u32) + 32) as char
    } else {
        c
    }
}

/// ASCII lower-casing of every character.
pub open spec fn lower_seq(s: Seq<char>) -> Seq<char> {
    s.map_values(|c: char| lower(c))
}

/// Equality up to ASCII case, as `str::eq_ignore_ascii_case` decides it.
pub open spec fn eq_ignore_case(a: Seq<char>, b: Seq<char>) -> bool {
    lower_seq(a) == lower_seq(b)
}

/// ASCII lower-casing of one character.
pub fn char_lower(c: char) -> (r: char)
    ensures
        r == lower(c),
{
    if 'A' <= c && c <= 'Z' {
        let b = (c as u8) + 32;
        assert(b as u32 == (c as u32) + 32);
        b as char
    } else {
        c
    }
}

/// Appends one character to a string (`String::push`).
#[verifier::external_body]
pub fn push_char(s: &mut String, c: char)
    ensures
        final(s)@ == old(s)@.push(c),
{
    s.push(c);
}

/// A new string holding the characters of `chars`.
pub fn string_from_chars(chars: &[char]) -> (r: String)
    ensures
        r@ == chars@,
{
    let mut r = String::new();
    let mut i: usize = 0;
    while i < chars.len()
        invariant
            0 <= i <= chars.len(),
            r@ == chars@.take(i as int),
        decreases chars.len() - i,
    {
        push_char(&mut r, chars[i]);
        assert(chars@.take(i + 1) =~= chars@.take(i as int).push(chars@[i as int]));
        i = i + 1;
    }
    assert(chars@.take(chars.len() as int) =~= chars@);
    r
}

/// The characters of `s`, in order.
pub fn chars_of(s: &str) -> (v: Vec<char>)
    ensures
        v@ == s@,
{
    let mut v: Vec<char> = Vec::new();
    for c in it: s.chars()
        invariant
            v@ == it.seq().take(it.index() as int),
    {
        v.push(c);
    }
    v
}

/// A copy of `s`.
pub fn copy_str(s: &str) -> (r: String)
    ensures
        r@ == s@,
{
    s.to_owned()
}

/// The ASCII lower-case form of `s` (`str::to_ascii_lowercase`).
pub fn to_ascii_lowercase(s: &str) -> (r: String)
    ensures
        r@ == lower_seq(s@),
{
    let cs = chars_of(s);
    let mut r = String::new();
    let mut i: usize = 0;
    while i < cs.len()
        invariant
            0 <= i <= cs.len(),
            cs@ == s@,
            r@ == lower_seq(cs@.take(i as int)),
        decreases cs.len() - i,
    {
        let c = char_lower(cs[i]);
        push_char(&mut r, c);
        assert(lower_seq(cs@.take(i + 1)) =~= lower_seq(cs@.take(i as int)).push(lower(cs@[i as int])));
        i = i + 1;
    }
    assert(cs@.take(cs.len() as int) =~= cs@);
    r
}

/// Whether two character sequences are equal.
pub fn chars_eq(a: &[char], b: &[char]) -> (r: bool)
    ensures
        r == (a@ == b@),
{
    if a.len() != b.len() {
        return false;
    }
    let mut i: usize = 0;
    while i < a.len()
        invariant
            a.len() == b.len(),
            0 <= i <= a.len(),
            a@.take(i as int) == b@.take(i as int),
        decreases a.len() - i,
    {
        if a[i] != b[i] {
            assert(a@[i as int] != b@[i as int]);
            return false;
        }
        assert(a@.take(i + 1) =~= a@.take(i as int).push(a@[i as int]));
        assert(b@.take(i + 1) =~= b@.take(i as int).push(b@[i as int]));
        i = i + 1;
    }
    assert(a@ =~= a@.take(a.len() as int));
    assert(b@ =~= b@.take(b.len() as int));
    true
}

/// Whether two strings are equal.
pub fn str_eq(a: &str, b: &str) -> (r: bool)
    ensures
        r == (a@ == b@),
{
    let ca = chars_of(a);
    let cb = chars_of(b);
    chars_eq(ca.as_slice(), cb.as_slice())
}

/// Whether two strings are equal up to ASCII case.
pub fn str_eq_ignore_case(a: &str, b: &str) -> (r: bool)
    ensures
        r == eq_ignore_case(a@, b@),
{
    let la = to_ascii_lowercase(a);
    let lb = to_ascii_lowercase(b);
    str_eq(la.as_str(), lb.as_str())
}

/// `p` is a prefix of `s`.
pub open spec fn is_prefix(p: Seq<char>, s: Seq<char>) -> bool {
    p.len() <= s.len() && s.take(p.len() as int) == p
}

/// `p` occurs in `s` starting at index `i`.
pub open spec fn occurs_at(s: Seq<char>, p: Seq<char>, i: int) -> bool {
    0 <= i && i + p.len() <= s.len() && s.subrange(i, i + p.len()) == p
}

/// `p` occurs somewhere in `s`, as `str::contains` decides it.
pub open spec fn contains_seq(s: Seq<char>, p: Seq<char>) -> bool {
    exists|i: int| occurs_at(s, p, i)
}

/// Whether `p` occurs in `s` at index `i`.
pub fn chars_occur_at(s: &[char], p: &[char], i: usize) -> (r: bool)
    ensures
        r == occurs_at(s@, p@, i as int),
{
    if i > s.len() || p.len() > s.len() - i {
        return false;
    }
    let mut k: usize = 0;
    while k < p.len()
        invariant
            i + p.len() <= s.len(),
            0 <= k <= p.len(),
            forall|j: int| 0 <= j < k ==> s@[i + j] == p@[j],
        decreases p.len() - k,
    {
        if s[i + k] != p[k] {
            assert(s@.subrange(i as int, i + p.len())[k as int] != p@[k as int]);
            return false;
        }
        k = k + 1;
    }
    assert(s@.subrange(i as int, i + p.len()) =~= p@);
    true
}

/// Whether `p` is a prefix of `s`.
pub fn chars_starts_with(s: &[char], p: &[char]) -> (r: bool)
    ensures
        r == is_prefix(p@, s@),
{
    let r = chars_occur_at(s, p, 0);
    assert(r ==> s@.subrange(0, p@.len() as int) =~= s@.take(p@.len() as int));
    assert(is_prefix(p@, s@) ==> s@.subrange(0, p@.len() as int) =~= s@.take(p@.len() as int));
    r
}

/// Whether `p` occurs in `s`.
pub fn chars_contains(s: &[char], p: &[char]) -> (r: bool)
    ensures
        r == contains_seq(s@, p@),
{
    let mut i: usize = 0;
    loop
        invariant
            0 <= i <= s.len(),
            forall|j: int| 0 <= j < i ==> !occurs_at(s@, p@, j),
        ensures
            i == s.len(),
            forall|j: int| 0 <= j <= i ==> !occurs_at(s@, p@, j),
        decreases s.len() - i,
    {
        if chars_occur_at(s, p, i) {
            return true;
        }
        if i == s.len() {
            break;
        }
        i = i + 1;
    }
    assert forall|j: int| !occurs_at(s@, p@, j) by {
        if 0 <= j && j <= i {
        }
    }
    false
}


/// Index of the first `'\n'` at or after `i`, or the length when none.
pub open spec fn newline_from(s: Seq<char>, i: int) -> int
    decreases s.len() - i,
{
    if i < 0 || i >= s.len() {
        s.len() as int
    } else if s[i] == '\n' {
        i
    } else {
        newline_from(s, i + 1)
    }
}

/// A line with the `'\r'` of a `"\r\n"` ending removed.
pub open spec fn strip_cr(l: Seq<char>) -> Seq<char> {
    if l.len() > 0 && l.last() == '\r' {
        l.drop_last()
    } else {
        l
    }
}

/// The lines of `s`, as `str::lines` yields them: split at `'\n'`, a `'\r'`
/// before the `'\n'` dropped, and no empty line after a final `'\n'`.
pub open spec fn lines_of(s: Seq<char>) -> Seq<Seq<char>>
    decreases s.len(),
{
    if s.len() == 0 {
        Seq::empty()
    } else {
        let k = newline_from(s, 0);
        if k >= s.len() || k < 0 {
            seq![s]
        } else {
            seq![strip_cr(s.take(k))] + lines_of(s.skip(k + 1))
        }
    }
}

proof fn lemma_newline_from(s: Seq<char>, i: int)
    requires
        0 <= i <= s.len(),
    ensures
        i <= newline_from(s, i) <= s.len(),
        newline_from(s, i) < s.len() ==> s[newline_from(s, i)] == '\n',
        forall|j: int| i <= j < newline_from(s, i) ==> s[j] != '\n',
    decreases s.len() - i,
{
    if i < s.len() && s[i] != '\n' {
        lemma_newline_from(s, i + 1);
    }
}

proof fn lemma_newline_shift(s: Seq<char>, a: int, i: int)
    requires
        0 <= a <= i <= s.len(),
        forall|j: int| a <= j < i ==> s[j] != '\n',
    ensures
        newline_from(s.skip(a), 0) == newline_from(s, i) - a,
    decreases i - a,
{
    lemma_newline_from(s, i);
    lemma_newline_from(s.skip(a), 0);
    let t = s.skip(a);
    let k = newline_from(t, 0);
    let m = newline_from(s, i);
    if k < m - a {
        if k < i - a {
            assert(t[k] == s[a + k]);
        } else {
            assert(t[k] == s[a + k]);
        }
    } else if k > m - a {
        assert(t[m - a] == s[m]);
    }
}

/// The lines of `s`, as `str::lines` yields them.
pub fn split_lines(s: &str) -> (r: Vec<String>)
    ensures
        r@.map_values(|l: String| l@) == lines_of(s@),
{
    let cs = chars_of(s);
    let ghost t = cs@;
    let mut out: Vec<String> = Vec::new();
    let mut start: usize = 0;
    let mut i: usize = 0;
    assert(t.skip(0) =~= t);
    assert(out@.map_values(|l: String| l@) + lines_of(t) =~= lines_of(t));
    while i < cs.len()
        invariant
            t == cs@,
            t == s@,
            0 <= start <= i <= t.len(),
            forall|j: int| start <= j < i ==> t[j] != '\n',
            lines_of(t) == out@.map_values(|l: String| l@) + lines_of(t.skip(start as int)),
        decreases t.len() - i,
    {
        if cs[i] == '\n' {
            let ghost rest = t.skip(start as int);
            proof {
                lemma_newline_shift(t, start as int, i as int);
                lemma_newline_from(t, i as int);
                assert(rest.take(i - start) =~= t.subrange(start as int, i as int));
                assert(rest.skip(i - start + 1) =~= t.skip(i + 1));
            }
            let end = if i > start && cs[i - 1] == '\r' {
                i - 1
            } else {
                i
            };
            let line = string_from_chars(&cs.as_slice()[start..end]);
            assert(line@ =~= strip_cr(rest.take(i - start)));
            let ghost before = out@;
            out.push(line);
            assert(out@.map_values(|l: String| l@) =~= before.map_values(|l: String| l@).push(
                line@,
            ));
            assert(lines_of(t) =~= out@.map_values(|l: String| l@) + lines_of(t.skip(i + 1)));
            start = i + 1;
        }
        i = i + 1;
    }
    let ghost rest = t.skip(start as int);
    if start < cs.len() {
        proof {
            lemma_newline_shift(t, start as int, t.len() as int);
            assert(t.skip(start as int) =~= t.subrange(start as int, t.len() as int));
        }
        let line = string_from_chars(&cs.as_slice()[start..cs.len()]);
        let ghost before = out@;
        out.push(line);
        assert(out@.map_values(|l: String| l@) =~= before.map_values(|l: String| l@).push(line@));
        assert(lines_of(rest) =~= seq![rest]);
        assert(lines_of(t) =~= out@.map_values(|l: String| l@));
    } else {
        assert(rest.len() == 0);
        assert(lines_of(t) =~= out@.map_values(|l: String| l@));
    }
    out
}

/// Index of the first `sep` at or after `i`, or the length when none.
pub open spec fn find_from(s: Seq<char>, sep: char, i: int) -> int
    decreases s.len() - i,
{
    if i < 0 || i >= s.len() {
        s.len() as int
    } else if s[i] == sep {
        i
    } else {
        find_from(s, sep, i + 1)
    }
}

/// The pieces of `s` between occurrences of `sep`, as `str::split` yields
/// them (an empty `s` gives one empty piece).
pub open spec fn split_on(s: Seq<char>, sep: char) -> Seq<Seq<char>>
    decreases s.len(),
{
    let k = find_from(s, sep, 0);
    if k < 0 || k >= s.len() {
        seq![s]
    } else {
        seq![s.take(k)] + split_on(s.skip(k + 1), sep)
    }
}

pub proof fn lemma_find_from(s: Seq<char>, sep: char, i: int)
    requires
        0 <= i <= s.len(),
    ensures
        i <= find_from(s, sep, i) <= s.len(),
        find_from(s, sep, i) < s.len() ==> s[find_from(s, sep, i)] == sep,
        forall|j: int| i <= j < find_from(s, sep, i) ==> s[j] != sep,
    decreases s.len() - i,
{
    if i < s.len() && s[i] != sep {
        lemma_find_from(s, sep, i + 1);
    }
}

pub proof fn lemma_find_shift(s: Seq<char>, sep: char, a: int, i: int)
    requires
        0 <= a <= i <= s.len(),
        forall|j: int| a <= j < i ==> s[j] != sep,
    ensures
        find_from(s.skip(a), sep, 0) == find_from(s, sep, i) - a,
{
    lemma_find_from(s, sep, i);
    lemma_find_from(s.skip(a), sep, 0);
    let t = s.skip(a);
    let k = find_from(t, sep, 0);
    let m = find_from(s, sep, i);
    if k < m - a {
        assert(t[k] == s[a + k]);
    } else if k > m - a {
        assert(t[m - a] == s[m]);
    }
}

/// The pieces of `s` between occurrences of `sep` (`str::split`).
pub fn split_chars(s: &[char], sep: char) -> (r: Vec<String>)
    ensures
        r@.map_values(|p: String| p@) == split_on(s@, sep),
{
    let ghost t = s@;
    let mut out: Vec<String> = Vec::new();
    let mut start: usize = 0;
    let mut i: usize = 0;
    assert(t.skip(0) =~= t);
    assert(out@.map_values(|p: String| p@) + split_on(t, sep) =~= split_on(t, sep));
    while i < s.len()
        invariant
            t == s@,
            0 <= start <= i <= t.len(),
            forall|j: int| start <= j < i ==> t[j] != sep,
            split_on(t, sep) == out@.map_values(|p: String| p@) + split_on(
                t.skip(start as int),
                sep,
            ),
        decreases t.len() - i,
    {
        if s[i] == sep {
            let ghost rest = t.skip(start as int);
            proof {
                lemma_find_shift(t, sep, start as int, i as int);
                lemma_find_from(t, sep, i as int);
                assert(rest.take(i - start) =~= t.subrange(start as int, i as int));
                assert(rest.skip(i - start + 1) =~= t.skip(i + 1));
            }
            let piece = string_from_chars(&s[start..i]);
            let ghost before = out@;
            out.push(piece);
            assert(out@.map_values(|p: String| p@) =~= before.map_values(|p: String| p@).push(
                piece@,
            ));
            assert(split_on(t, sep) =~= out@.map_values(|p: String| p@) + split_on(
                t.skip(i + 1),
                sep,
            ));
            start = i + 1;
        }
        i = i + 1;
    }
    let ghost rest = t.skip(start as int);
    proof {
        lemma_find_shift(t, sep, start as int, t.len() as int);
        assert(t.skip(start as int) =~= t.subrange(start as int, t.len() as int));
    }
    let piece = string_from_chars(&s[start..s.len()]);
    let ghost before = out@;
    out.push(piece);
    assert(out@.map_values(|p: String| p@) =~= before.map_values(|p: String| p@).push(
        piece@,
    ));
    assert(split_on(rest, sep) =~= seq![rest]);
    assert(split_on(t, sep) =~= out@.map_values(|p: String| p@));
    out
}

/// `s` without its leading whitespace.
pub open spec fn trim_front(s: Seq<char>) -> Seq<char>
    decreases s.len(),
{
    if s.len() > 0 && is_space(s[0]) {
        trim_front(s.drop_first())
    } else {
        s
    }
}

/// `s` without its trailing whitespace.
pub open spec fn trim_back(s: Seq<char>) -> Seq<char>
    decreases s.len(),
{
    if s.len() > 0 && is_space(s.last()) {
        trim_back(s.drop_last())
    } else {
        s
    }
}

/// `s` without leading and trailing whitespace (`str::trim`).
pub open spec fn trim(s: Seq<char>) -> Seq<char> {
    trim_back(trim_front(s))
}

/// `s` without leading and trailing whitespace (`str::trim`).
pub fn trim_str(s: &str) -> (r: String)
    ensures
        r@ == trim(s@),
{
    let cs = chars_of(s);
    let ghost t = cs@;
    let mut a: usize = 0;
    assert(t.skip(0) =~= t);
    while a < cs.len() && char_is_whitespace(cs[a])
        invariant
            t == cs@,
            0 <= a <= t.len(),
            trim_front(t) == trim_front(t.skip(a as int)),
        decreases t.len() - a,
    {
        assert(t.skip(a as int).drop_first() =~= t.skip(a + 1));
        a = a + 1;
    }
    let mut b: usize = cs.len();
    assert(t.skip(a as int) =~= t.subrange(a as int, b as int));
    while b > a && char_is_whitespace(cs[b - 1])
        invariant
            t == cs@,
            0 <= a <= b <= t.len(),
            trim(t) == trim_back(t.subrange(a as int, b as int)),
        decreases b - a,
    {
        assert(t.subrange(a as int, b as int).drop_last() =~= t.subrange(a as int, b - 1));
        b = b - 1;
    }
    string_from_chars(&cs.as_slice()[a..b])
}


/// Appends `src` to `dst` (`String::push_str`).
pub fn append_str(dst: &mut String, src: &str)
    ensures
        final(dst)@ == old(dst)@ + src@,
{
    let cs = chars_of(src);
    let ghost start = dst@;
    let mut i: usize = 0;
    while i < cs.len()
        invariant
            0 <= i <= cs@.len(),
            cs@ == src@,
            dst@ == start + cs@.take(i as int),
        decreases cs@.len() - i,
    {
        push_char(dst, cs[i]);
        assert(cs@.take(i + 1) =~= cs@.take(i as int).push(cs@[i as int]));
        i = i + 1;
    }
    assert(cs@.take(cs@.len() as int) =~= cs@);
}

/// The concatenation of `a` and `b`.
pub fn cat(a: &str, b: &str) -> (r: String)
    ensures
        r@ == a@ + b@,
{
    let mut r = copy_str(a);
    append_str(&mut r, b);
    r
}

/// `parts` joined with `sep` between neighbours.
pub open spec fn join_with(parts: Seq<Seq<char>>, sep: Seq<char>) -> Seq<char>
    decreases parts.len(),
{
    if parts.len() == 0 {
        Seq::empty()
    } else if parts.len() == 1 {
        parts[0]
    } else {
        join_with(parts.drop_last(), sep) + sep + parts.last()
    }
}

/// `parts` joined with `sep` between neighbours (`slice::join`).
pub fn join_strings(parts: &[String], sep: &str) -> (r: String)
    ensures
        r@ == join_with(parts@.map_values(|s: String| s@), sep@),
{
    let ghost pv = parts@.map_values(|s: String| s@);
    let mut r = String::new();
    let mut i: usize = 0;
    assert(pv.take(0) =~= Seq::<Seq<char>>::empty());
    while i < parts.len()
        invariant
            0 <= i <= parts@.len(),
            pv == parts@.map_values(|s: String| s@),
            r@ == join_with(pv.take(i as int), sep@),
        decreases parts@.len() - i,
    {
        if i > 0 {
            append_str(&mut r, sep);
        }
        append_str(&mut r, parts[i].as_str());
        assert(pv.take(i + 1).drop_last() =~= pv.take(i as int));
        assert(pv.take(i + 1).last() == parts@[i as int]@);
        proof {
            if i == 0 {
                assert(pv.take(1).len() == 1);
                assert(r@ =~= pv.take(1)[0]);
            }
        }
        i = i + 1;
    }
    assert(pv.take(parts@.len() as int) =~= pv);
    r
}

/// The first newline of `s` is at `k` when `s[k]` is one and none comes before.
proof fn lemma_newline_at(s: Seq<char>, k: int)
    requires
        0 <= k < s.len(),
        s[k] == '\n',
        forall|j: int| 0 <= j < k ==> s[j] != '\n',
    ensures
        newline_from(s, 0) == k,
{
    lemma_newline_from(s, 0);
    let r = newline_from(s, 0);
    if r < k {
        assert(s[r] == '\n');
    }
}

/// Splitting text that ends a line (or is empty) before more text gives the
/// lines of each part.
pub proof fn lemma_lines_of_concat(a: Seq<char>, b: Seq<char>)
    requires
        a.len() == 0 || a.last() == '\n',
    ensures
        lines_of(a + b) == lines_of(a) + lines_of(b),
    decreases a.len(),
{
    if a.len() == 0 {
        assert(a + b =~= b);
        assert(lines_of(a) =~= Seq::<Seq<char>>::empty());
        assert(lines_of(a) + lines_of(b) =~= lines_of(b));
    } else {
        lemma_newline_from(a, 0);
        let k = newline_from(a, 0);
        assert(k < a.len()) by {
            if k >= a.len() {
                assert(a[a.len() - 1] == '\n');
            }
        }
        let ab = a + b;
        assert(ab[k] == a[k]);
        assert forall|j: int| 0 <= j < k implies ab[j] != '\n' by {
            assert(ab[j] == a[j]);
        }
        lemma_newline_at(ab, k);
        assert(ab.take(k) =~= a.take(k));
        assert(ab.skip(k + 1) =~= a.skip(k + 1) + b);
        let rest = a.skip(k + 1);
        assert(rest.len() == 0 || rest.last() == '\n') by {
            if rest.len() > 0 {
                assert(rest.last() == a.last());
            }
        }
        lemma_lines_of_concat(rest, b);
        assert(lines_of(ab) == seq![strip_cr(a.take(k))] + lines_of(rest + b));
        assert(lines_of(a) == seq![strip_cr(a.take(k))] + lines_of(rest));
        assert(lines_of(ab) =~= lines_of(a) + lines_of(b));
    }
}

/// One line ended by a newline reads back as itself.
pub proof fn lemma_lines_of_line(r: Seq<char>)
    requires
        forall|j: int| 0 <= j < r.len() ==> r[j] != '\n',
        r.len() == 0 || r.last() != '\r',
    ensures
        lines_of(r + seq!['\n']) == seq![r],
{
    let s = r + seq!['\n'];
    assert(s[r.len() as int] == '\n');
    assert forall|j: int| 0 <= j < r.len() implies s[j] != '\n' by {
        assert(s[j] == r[j]);
    }
    lemma_newline_at(s, r.len() as int);
    assert(s.take(r.len() as int) =~= r);
    assert(s.skip(r.len() as int + 1) =~= Seq::<char>::empty());
    assert(lines_of(Seq::<char>::empty()) =~= Seq::<Seq<char>>::empty());
    assert(lines_of(s) =~= seq![r]);
}


/// Text without a line break is one line.
pub proof fn lemma_lines_of_single(s: Seq<char>)
    requires
        s.len() > 0,
        forall|j: int| 0 <= j < s.len() ==> s[j] != '\n',
    ensures
        lines_of(s) == seq![s],
{
    lemma_newline_from(s, 0);
}

} // verus!
