//! Completion candidates for command names and arguments, and their ranking.

use crate::aliases::ConsoleAliases;
use crate::state::{ConsoleState, StateView};
use crate::model::{ArgumentKind, ArgumentSpec, CompletionItem, CompletionRequest, ItemView, RequestView};
use crate::parser::{spec_active_argument, spec_active_fragment, spec_replacement, ParsedInput, ParsedInputView};
use crate::registry::{alias_views, resolve, CommandDef, ConsoleRegistry};
use crate::table::{chars_lex_lt, lemma_lex_asym, lemma_lex_total, lemma_lex_trans, lex_lt};
use crate::text::{
    utf8_len, cat, chars_contains, chars_of, chars_starts_with, contains_seq, copy_str, is_prefix, lower_seq,
    to_ascii_lowercase,
};
use std::ops::Range;
use vstd::prelude::*;

verus! {

broadcast use vstd::string::group_string_axioms;

/// How well `candidate` matches the typed `fragment`: 0 when the fragment is
/// empty or a prefix, 1 when it occurs elsewhere, ignoring ASCII case.
pub open spec fn rank_of(candidate: Seq<char>, fragment: Seq<char>) -> Option<u8> {
    if fragment.len() == 0 {
        Some(0)
    } else if is_prefix(lower_seq(fragment), lower_seq(candidate)) {
        Some(0)
    } else if contains_seq(lower_seq(candidate), lower_seq(fragment)) {
        Some(1)
    } else {
        None
    }
}

/// Prefix matches rank first (0), then case-insensitive substring matches (1);
/// `None` when the fragment does not occur in the candidate.
pub fn match_rank(candidate: &str, fragment: &str) -> (r: Option<u8>)
    ensures
        r == rank_of(candidate@, fragment@),
{
    if fragment.is_empty() {
        return Some(0);
    }
    let c = to_ascii_lowercase(candidate);
    let f = to_ascii_lowercase(fragment);
    let cc = chars_of(c.as_str());
    let fc = chars_of(f.as_str());
    if chars_starts_with(cc.as_slice(), fc.as_slice()) {
        Some(0)
    } else if chars_contains(cc.as_slice(), fc.as_slice()) {
        Some(1)
    } else {
        None
    }
}

/// `a` may stay before `b`: a better rank, or the same rank and a label
/// that does not sort after `b`'s.
pub open spec fn ranks_before(a: (u8, ItemView), b: (u8, ItemView)) -> bool {
    a.0 < b.0 || (a.0 == b.0 && !lex_lt(b.1.label, a.1.label))
}

/// `x` inserted into `s` after every element that may stay before it.
pub open spec fn insert_stable(s: Seq<(u8, ItemView)>, x: (u8, ItemView)) -> Seq<(u8, ItemView)>
    decreases s.len(),
{
    if s.len() == 0 {
        seq![x]
    } else if ranks_before(s.last(), x) {
        s.push(x)
    } else {
        insert_stable(s.drop_last(), x).push(s.last())
    }
}

/// `s` sorted by rank, then label, keeping the relative order of equal
/// elements.
pub open spec fn stable_sort(s: Seq<(u8, ItemView)>) -> Seq<(u8, ItemView)>
    decreases s.len(),
{
    if s.len() == 0 {
        Seq::empty()
    } else {
        insert_stable(stable_sort(s.drop_last()), s.last())
    }
}

/// The candidates that match `fragment`, with their ranks, in order.
pub open spec fn ranked(items: Seq<ItemView>, fragment: Seq<char>) -> Seq<(u8, ItemView)>
    decreases items.len(),
{
    if items.len() == 0 {
        Seq::empty()
    } else {
        let prev = ranked(items.drop_last(), fragment);
        match rank_of(items.last().label, fragment) {
            Some(r) => prev.push((r, items.last())),
            None => prev,
        }
    }
}

/// `i` replacing the byte range `start..end`.
pub open spec fn with_range(i: ItemView, start: nat, end: nat) -> ItemView {
    ItemView { replace_start: start, replace_end: end, ..i }
}

/// The candidates that match `fragment`, each replacing `start..end`, best
/// first: prefix matches before substring matches, then by label, ties kept
/// in the order they were given.
pub open spec fn rank_completions(
    items: Seq<ItemView>,
    fragment: Seq<char>,
    start: nat,
    end: nat,
) -> Seq<ItemView> {
    stable_sort(ranked(items.map_values(|i: ItemView| with_range(i, start, end)), fragment)).map_values(
        |p: (u8, ItemView)| p.1,
    )
}

fn ranks_before_exec(a: &(u8, CompletionItem), b_rank: u8, b_label: &[char]) -> (r: bool)
    ensures
        r == (a.0 < b_rank || (a.0 == b_rank && !lex_lt(b_label@, a.1@.label))),
{
    if a.0 < b_rank {
        true
    } else if a.0 == b_rank {
        let al = chars_of(a.1.label.as_str());
        !chars_lex_lt(b_label, al.as_slice())
    } else {
        false
    }
}

/// Inserts `x` into `v` where [`insert_stable`] puts it.
fn insert_ranked(v: &mut Vec<(u8, CompletionItem)>, x: (u8, CompletionItem))
    ensures
        final(v)@.map_values(|p: (u8, CompletionItem)| (p.0, p.1@)) == insert_stable(
            old(v)@.map_values(|p: (u8, CompletionItem)| (p.0, p.1@)),
            (x.0, x.1@),
        ),
{
    let ghost s = v@.map_values(|p: (u8, CompletionItem)| (p.0, p.1@));
    let ghost xv = (x.0, x.1@);
    let label = chars_of(x.1.label.as_str());
    let mut j = v.len();
    assert(s.take(j as int) =~= s);
    assert(s.skip(j as int) =~= Seq::<(u8, ItemView)>::empty());
    while j > 0 && !ranks_before_exec(&v[j - 1], x.0, label.as_slice())
        invariant
            0 <= j <= s.len(),
            s == v@.map_values(|p: (u8, CompletionItem)| (p.0, p.1@)),
            label@ == xv.1.label,
            xv == (x.0, x.1@),
            insert_stable(s, xv) == insert_stable(s.take(j as int), xv) + s.skip(j as int),
        decreases j,
    {
        assert(s[j - 1] == (v@[j - 1].0, v@[j - 1].1@));
        assert(s.take(j as int).drop_last() =~= s.take(j - 1));
        assert(s.take(j as int).last() == s[j - 1]);
        assert(seq![s[j - 1]] + s.skip(j as int) =~= s.skip(j - 1));
        assert(insert_stable(s.take(j - 1), xv).push(s[j - 1]) + s.skip(j as int)
            =~= insert_stable(s.take(j - 1), xv) + s.skip(j - 1));
        j = j - 1;
    }
    proof {
        if j > 0 {
            assert(s[j - 1] == (v@[j - 1].0, v@[j - 1].1@));
            assert(s.take(j as int).last() == s[j - 1]);
        }
        assert(s.take(j as int).push(xv) + s.skip(j as int) =~= s.insert(j as int, xv));
        assert(s.take(0) =~= Seq::<(u8, ItemView)>::empty());
    }
    v.insert(j, x);
    assert(v@.map_values(|p: (u8, CompletionItem)| (p.0, p.1@)) =~= s.insert(j as int, xv));
}

/// Sets every candidate to replace `replace`, keeps those that match
/// `fragment`, and orders them best first (see [`rank_completions`]).
pub fn rank_completion_items(items: Vec<CompletionItem>, fragment: &str, replace: Range<usize>) -> (r:
    Vec<CompletionItem>)
    ensures
        r@.map_values(|i: CompletionItem| i@) == rank_completions(
            items@.map_values(|i: CompletionItem| i@),
            fragment@,
            replace.start as nat,
            replace.end as nat,
        ),
{
    let ghost iv = items@.map_values(|i: CompletionItem| i@).map_values(
        |i: ItemView| with_range(i, replace.start as nat, replace.end as nat),
    );
    let mut sorted: Vec<(u8, CompletionItem)> = Vec::new();
    let mut rest = items;
    let count = rest.len();
    let ghost n = rest@.len();
    let ghost orig = rest@;
    assert(n == count);
    let mut taken: usize = 0;
    // Items are consumed from the front; `rest` holds the untaken suffix.
    assert(iv.take(0) =~= Seq::<ItemView>::empty());
    assert(sorted@.map_values(|p: (u8, CompletionItem)| (p.0, p.1@)) =~= Seq::<(u8, ItemView)>::empty());
    while rest.len() > 0
        invariant
            taken + rest@.len() == n,
            n == orig.len(),
            n <= usize::MAX,
            iv.len() == n,
            forall|k: int| 0 <= k < rest@.len() ==> #[trigger] rest@[k] == orig[taken + k],
            forall|k: int| 0 <= k < n ==> #[trigger] iv[k] == with_range(
                orig[k]@,
                replace.start as nat,
                replace.end as nat,
            ),
            sorted@.map_values(|p: (u8, CompletionItem)| (p.0, p.1@)) == stable_sort(
                ranked(iv.take(taken as int), fragment@),
            ),
        decreases rest@.len(),
    {
        let mut item = rest.remove(0);
        assert(item == orig[taken as int]);
        item.set_replace(replace.start..replace.end);
        assert(item@ == iv[taken as int]);
        let ghost prefix = iv.take(taken + 1);
        assert(prefix.drop_last() =~= iv.take(taken as int));
        assert(prefix.last() == item@);
        let ghost before = ranked(iv.take(taken as int), fragment@);
        match match_rank(item.label.as_str(), fragment) {
            Some(rank) => {
                let ghost pair = (rank, item@);
                assert(ranked(prefix, fragment@) == before.push(pair));
                assert(before.push(pair).drop_last() =~= before);
                assert(stable_sort(before.push(pair)) == insert_stable(stable_sort(before), pair));
                insert_ranked(&mut sorted, (rank, item));
            },
            None => {
                assert(ranked(prefix, fragment@) == before);
            },
        }
        taken = taken + 1;
    }
    assert(iv.take(n as int) =~= iv);
    let mut out: Vec<CompletionItem> = Vec::new();
    let ghost sv = sorted@.map_values(|p: (u8, CompletionItem)| (p.0, p.1@));
    let ghost total = sorted@.len();
    while sorted.len() > 0
        invariant
            total == sv.len(),
            out@.len() + sorted@.len() == total,
            forall|k: int| 0 <= k < out@.len() ==> (#[trigger] out@[k])@ == sv[k].1,
            forall|k: int|
                0 <= k < sorted@.len() ==> ((#[trigger] sorted@[k]).0, sorted@[k].1@) == sv[out@.len()
                    + k],
        decreases sorted@.len(),
    {
        let (_, item) = sorted.remove(0);
        out.push(item);
    }
    assert(out@.map_values(|i: CompletionItem| i@) =~= sv.map_values(|p: (u8, ItemView)| p.1));
    assert(items@.map_values(|i: CompletionItem| i@).map_values(
        |i: ItemView| with_range(i, replace.start as nat, replace.end as nat),
    ) =~= iv);
    out
}

/// A candidate with a label and detail that inserts its label, replaces
/// nothing yet, and appends a space.
pub open spec fn plain_item(label: Seq<char>, detail: Seq<char>) -> ItemView {
    ItemView {
        label,
        insert_text: label,
        detail,
        replace_start: 0,
        replace_end: 0,
        append_space: true,
    }
}

/// One candidate per visible command, in name order: its name and summary.
pub open spec fn command_name_items(defs: Seq<CommandDef>) -> Seq<ItemView>
    decreases defs.len(),
{
    if defs.len() == 0 {
        Seq::empty()
    } else {
        let prev = command_name_items(defs.drop_last());
        let d = defs.last();
        if d.spec.hidden {
            prev
        } else {
            prev.push(plain_item(d.spec.name@, d.spec.summary@))
        }
    }
}

/// The detail shown for a registered alias of `d`.
pub open spec fn alias_detail(d: CommandDef) -> Seq<char> {
    "alias for "@ + d.spec.name@ + " - "@ + d.spec.summary@
}

/// One candidate per registered alias of each visible command.
pub open spec fn command_alias_items(defs: Seq<CommandDef>) -> Seq<ItemView>
    decreases defs.len(),
{
    if defs.len() == 0 {
        Seq::empty()
    } else {
        let prev = command_alias_items(defs.drop_last());
        let d = defs.last();
        if d.spec.hidden {
            prev
        } else {
            prev + alias_views(d.spec).map_values(|a: Seq<char>| plain_item(a, alias_detail(d)))
        }
    }
}

/// One candidate per runtime alias, in name order.
pub open spec fn runtime_alias_items(entries: Seq<(Seq<char>, Seq<char>)>) -> Seq<ItemView> {
    entries.map_values(|e: (Seq<char>, Seq<char>)| plain_item(e.0, "runtime alias - "@ + e.1))
}

/// Everything that can stand in command position: visible commands, their
/// registered aliases, then runtime aliases.
pub open spec fn runtime_command_items(
    defs: Seq<CommandDef>,
    entries: Seq<(Seq<char>, Seq<char>)>,
) -> Seq<ItemView> {
    command_name_items(defs) + command_alias_items(defs) + runtime_alias_items(entries)
}

/// Candidates for everything that can stand in command position (see
/// [`runtime_command_items`]).
pub fn runtime_command_completions(registry: &ConsoleRegistry, aliases: &ConsoleAliases) -> (r: Vec<
    CompletionItem,
>)
    ensures
        r@.map_values(|i: CompletionItem| i@) == runtime_command_items(
            registry.defs(),
            aliases.entries(),
        ),
{
    let ghost defs = registry.defs();
    let n = registry.len();
    let mut out: Vec<CompletionItem> = Vec::new();
    let mut i: usize = 0;
    assert(defs.take(0) =~= Seq::<CommandDef>::empty());
    assert(out@.map_values(|i: CompletionItem| i@) =~= Seq::<ItemView>::empty());
    while i < n
        invariant
            0 <= i <= n,
            n == defs.len(),
            defs == registry.defs(),
            out@.map_values(|i: CompletionItem| i@) == command_name_items(defs.take(i as int)),
        decreases n - i,
    {
        let d = registry.def_at(i);
        assert(defs.take(i + 1).drop_last() =~= defs.take(i as int));
        let ghost before = out@.map_values(|i: CompletionItem| i@);
        if !d.spec.hidden {
            let item = CompletionItem::new(d.spec.name.as_str(), d.spec.summary);
            out.push(item);
            assert(out@.map_values(|i: CompletionItem| i@) =~= before.push(item@));
        }
        i = i + 1;
    }
    assert(defs.take(n as int) =~= defs);
    let ghost names = out@.map_values(|i: CompletionItem| i@);
    let mut i: usize = 0;
    assert(names + command_alias_items(defs.take(0)) =~= names);
    while i < n
        invariant
            0 <= i <= n,
            n == defs.len(),
            defs == registry.defs(),
            names == command_name_items(defs),
            out@.map_values(|i: CompletionItem| i@) == names + command_alias_items(
                defs.take(i as int),
            ),
        decreases n - i,
    {
        let d = registry.def_at(i);
        assert(defs.take(i + 1).drop_last() =~= defs.take(i as int));
        if !d.spec.hidden {
            let prefix = cat("alias for ", d.spec.name.as_str());
            let prefix = cat(prefix.as_str(), " - ");
            let detail = cat(prefix.as_str(), d.spec.summary);
            assert(detail@ == alias_detail(*d));
            let ghost start = out@.map_values(|i: CompletionItem| i@);
            let ghost avs = alias_views(d.spec);
            let mut k: usize = 0;
            while k < d.spec.aliases.len()
                invariant
                    0 <= k <= d.spec.aliases@.len(),
                    avs == alias_views(d.spec),
                    detail@ == alias_detail(*d),
                    out@.map_values(|i: CompletionItem| i@) == start + avs.take(k as int).map_values(
                        |a: Seq<char>| plain_item(a, alias_detail(*d)),
                    ),
                decreases d.spec.aliases@.len() - k,
            {
                let item = CompletionItem::new(d.spec.aliases[k], detail.as_str());
                let ghost before = out@.map_values(|i: CompletionItem| i@);
                out.push(item);
                assert(avs[k as int] == d.spec.aliases@[k as int]@);
                assert(avs.take(k + 1).map_values(|a: Seq<char>| plain_item(a, alias_detail(*d)))
                    =~= avs.take(k as int).map_values(|a: Seq<char>| plain_item(a, alias_detail(*d))).push(
                    item@,
                ));
                assert(out@.map_values(|i: CompletionItem| i@) =~= before.push(item@));
                k = k + 1;
            }
            assert(avs.take(k as int) =~= avs);
        }
        i = i + 1;
    }
    assert(defs.take(n as int) =~= defs);
    let ghost commands = out@.map_values(|i: CompletionItem| i@);
    let entries = aliases.iter();
    let mut k: usize = 0;
    assert(commands + runtime_alias_items(aliases.entries().take(0)) =~= commands);
    while k < entries.len()
        invariant
            0 <= k <= entries@.len(),
            entries@.map_values(|e: (String, String)| (e.0@, e.1@)) == aliases.entries(),
            out@.map_values(|i: CompletionItem| i@) == commands + runtime_alias_items(
                aliases.entries().take(k as int),
            ),
        decreases entries@.len() - k,
    {
        let detail = cat("runtime alias - ", entries[k].1.as_str());
        let item = CompletionItem::new(entries[k].0.as_str(), detail.as_str());
        let ghost before = out@.map_values(|i: CompletionItem| i@);
        out.push(item);
        assert(aliases.entries()[k as int] == (entries@[k as int].0@, entries@[k as int].1@));
        assert(runtime_alias_items(aliases.entries().take(k + 1)) =~= runtime_alias_items(
            aliases.entries().take(k as int),
        ).push(item@));
        assert(out@.map_values(|i: CompletionItem| i@) =~= before.push(item@));
        k = k + 1;
    }
    assert(aliases.entries().take(k as int) =~= aliases.entries());
    out
}

/// Candidates with fixed labels and details.
pub fn static_completion_items(items: &[(&'static str, &'static str)]) -> (r: Vec<CompletionItem>)
    ensures
        r@.map_values(|i: CompletionItem| i@) == items@.map_values(
            |p: (&'static str, &'static str)| plain_item(p.0@, p.1@),
        ),
{
    let mut out: Vec<CompletionItem> = Vec::new();
    let mut i: usize = 0;
    while i < items.len()
        invariant
            0 <= i <= items@.len(),
            out@.map_values(|i: CompletionItem| i@) == items@.take(i as int).map_values(
                |p: (&'static str, &'static str)| plain_item(p.0@, p.1@),
            ),
        decreases items@.len() - i,
    {
        let (label, detail) = items[i];
        let item = CompletionItem::new(label, detail);
        let ghost before = out@.map_values(|i: CompletionItem| i@);
        out.push(item);
        assert(out@.map_values(|i: CompletionItem| i@) =~= before.push(item@));
        assert(items@.take(i + 1).map_values(|p: (&'static str, &'static str)| plain_item(p.0@, p.1@))
            =~= items@.take(i as int).map_values(
            |p: (&'static str, &'static str)| plain_item(p.0@, p.1@),
        ).push(item@));
        i = i + 1;
    }
    assert(items@.take(items@.len() as int) =~= items@);
    out
}

/// The values offered for an argument: `true`/`false` for a boolean, its
/// choices for a choice, nothing for a free-form string.
pub open spec fn argument_choices(a: ArgumentSpec) -> Seq<Seq<char>> {
    match a.kind {
        ArgumentKind::Boolean => seq!["true"@, "false"@],
        ArgumentKind::Choice => a.choices@.map_values(|c: &'static str| c@),
        ArgumentKind::String => Seq::empty(),
    }
}

/// The detail shown beside an argument's values: its name, and its help
/// after a dash when there is any.
pub open spec fn argument_detail(a: ArgumentSpec) -> Seq<char> {
    if a.help@.len() == 0 {
        a.name@
    } else {
        a.name@ + " - "@ + a.help@
    }
}

/// How the candidates for an input are obtained.
pub enum CompletionPlan {
    /// The ranked candidates.
    Ready(Vec<CompletionItem>),
    /// The command's own completer must be run on `request`; its result is
    /// then ranked with [`rank_completion_items`].
    RunCompleter { completer: u64, request: CompletionRequest },
}

/// The model of a [`CompletionPlan`].
pub enum PlanView {
    Ready(Seq<ItemView>),
    RunCompleter { completer: u64, request: RequestView },
}

impl View for CompletionPlan {
    type V = PlanView;

    open spec fn view(&self) -> PlanView {
        match self {
            CompletionPlan::Ready(items) => PlanView::Ready(
                items@.map_values(|i: CompletionItem| i@),
            ),
            CompletionPlan::RunCompleter { completer, request } => PlanView::RunCompleter {
                completer: *completer,
                request: request@,
            },
        }
    }
}

/// The candidates for the input `p`: commands and aliases while the command
/// word is edited; for an argument, the command's completer when it has one,
/// else the values its argument metadata offers. Everything is ranked against
/// the fragment being edited.
pub open spec fn completion_plan(
    defs: Seq<CommandDef>,
    entries: Seq<(Seq<char>, Seq<char>)>,
    p: ParsedInputView,
) -> PlanView {
    let fragment = spec_active_fragment(p);
    let range = spec_replacement(p);
    match spec_active_argument(p) {
        None => PlanView::Ready(
            rank_completions(runtime_command_items(defs, entries), fragment, range.0, range.1),
        ),
        Some(index) => if p.tokens.len() == 0 {
            PlanView::Ready(Seq::empty())
        } else {
            match resolve(defs, p.tokens[0].value) {
                None => PlanView::Ready(Seq::empty()),
                Some(i) => match defs[i].completer {
                    Some(c) => PlanView::RunCompleter {
                        completer: c,
                        request: RequestView {
                            parsed: p,
                            command: p.tokens[0].value,
                            argument_index: index,
                        },
                    },
                    None => if index < defs[i].spec.args@.len() {
                        let a = defs[i].spec.args@[index as int];
                        PlanView::Ready(
                            rank_completions(
                                argument_choices(a).map_values(
                                    |c: Seq<char>| plain_item(c, argument_detail(a)),
                                ),
                                fragment,
                                range.0,
                                range.1,
                            ),
                        )
                    } else {
                        PlanView::Ready(Seq::empty())
                    },
                },
            }
        },
    }
}

/// No candidates.
fn no_items() -> (r: Vec<CompletionItem>)
    ensures
        r@.map_values(|i: CompletionItem| i@) == Seq::<ItemView>::empty(),
{
    let r: Vec<CompletionItem> = Vec::new();
    assert(r@.map_values(|i: CompletionItem| i@) =~= Seq::<ItemView>::empty());
    r
}

/// Candidates offered for argument `a`.
fn argument_items(a: &ArgumentSpec) -> (r: Vec<CompletionItem>)
    ensures
        r@.map_values(|i: CompletionItem| i@) == argument_choices(*a).map_values(
            |c: Seq<char>| plain_item(c, argument_detail(*a)),
        ),
{
    let detail = if a.help.is_empty() {
        copy_str(a.name)
    } else {
        let prefix = cat(a.name, " - ");
        cat(prefix.as_str(), a.help)
    };
    let ghost choices = argument_choices(*a);
    let mut out: Vec<CompletionItem> = Vec::new();
    match a.kind {
        ArgumentKind::Boolean => {
            let t = CompletionItem::new("true", detail.as_str());
            let f = CompletionItem::new("false", detail.as_str());
            out.push(t);
            out.push(f);
            assert(out@.map_values(|i: CompletionItem| i@) =~= choices.map_values(
                |c: Seq<char>| plain_item(c, argument_detail(*a)),
            ));
        },
        ArgumentKind::Choice => {
            let mut k: usize = 0;
            while k < a.choices.len()
                invariant
                    0 <= k <= a.choices@.len(),
                    a.kind == ArgumentKind::Choice,
                    choices == argument_choices(*a),
                    detail@ == argument_detail(*a),
                    out@.map_values(|i: CompletionItem| i@) == choices.take(k as int).map_values(
                        |c: Seq<char>| plain_item(c, argument_detail(*a)),
                    ),
                decreases a.choices@.len() - k,
            {
                let item = CompletionItem::new(a.choices[k], detail.as_str());
                let ghost before = out@.map_values(|i: CompletionItem| i@);
                out.push(item);
                assert(choices[k as int] == a.choices@[k as int]@);
                assert(out@.map_values(|i: CompletionItem| i@) =~= before.push(item@));
                assert(choices.take(k + 1).map_values(|c: Seq<char>| plain_item(c, argument_detail(*a)))
                    =~= choices.take(k as int).map_values(
                    |c: Seq<char>| plain_item(c, argument_detail(*a)),
                ).push(item@));
                k = k + 1;
            }
            assert(choices.take(k as int) =~= choices);
        },
        ArgumentKind::String => {
            assert(out@.map_values(|i: CompletionItem| i@) =~= choices.map_values(
                |c: Seq<char>| plain_item(c, argument_detail(*a)),
            ));
        },
    }
    out
}

/// How the candidates for `parsed` are obtained (see [`completion_plan`]).
pub fn plan_completions(registry: &ConsoleRegistry, aliases: &ConsoleAliases, parsed: &ParsedInput) -> (r:
    CompletionPlan)
    ensures
        r@ == completion_plan(registry.defs(), aliases.entries(), parsed@),
{
    let fragment = parsed.active_fragment();
    let range = parsed.replacement_range();
    match parsed.active_argument_index() {
        None => {
            let items = runtime_command_completions(registry, aliases);
            CompletionPlan::Ready(rank_completion_items(items, fragment, range))
        },
        Some(index) => {
            let command = match parsed.command() {
                Some(c) => c,
                None => {
                    return CompletionPlan::Ready(no_items());
                },
            };
            assert(command@ == parsed@.tokens[0].value);
            let def = match registry.get(command) {
                Some(d) => d,
                None => {
                    return CompletionPlan::Ready(no_items());
                },
            };
            match def.completer {
                Some(c) => CompletionPlan::RunCompleter {
                    completer: c,
                    request: CompletionRequest::new(parsed.clone(), command, index),
                },
                None => {
                    if index < def.spec.args.len() {
                        let items = argument_items(&def.spec.args[index]);
                        CompletionPlan::Ready(rank_completion_items(items, fragment, range))
                    } else {
                        CompletionPlan::Ready(no_items())
                    }
                },
            }
        },
    }
}

impl ConsoleState {
    /// Starts a completion refresh: the input to complete and the cursor to
    /// complete at, which is the cursor left by an accepted candidate, else
    /// the text widget's cursor, else the end of the input.
    pub fn begin_completion_refresh(&mut self, widget_cursor: Option<usize>) -> (r: (String, usize))
        ensures
            final(self)@ == (StateView { completion_cursor: None, ..old(self)@ }),
            r.0@ == old(self)@.input,
            r.1 == match old(self)@.completion_cursor {
                Some(c) => c,
                None => match widget_cursor {
                    Some(c) => c,
                    None => utf8_len(old(self)@.input) as usize,
                },
            },
    {
        let input = self.input.clone();
        let pending = self.completion_cursor;
        self.completion_cursor = None;
        let cursor = match pending {
            Some(c) => c,
            None => match widget_cursor {
                Some(c) => c,
                None => {
                    let st = input.as_str();
                    let n = st.as_bytes().len();
                    proof {
                        crate::text::lemma_str_len(st);
                        assert(st@.take(st@.len() as int) =~= st@);
                    }
                    n
                },
            },
        };
        (input, cursor)
    }

    /// Installs refreshed candidates: all are kept for paging, the overflow
    /// counts those beyond the first page, and a page size of zero shows none.
    pub fn install_completions(&mut self, items: Vec<CompletionItem>, max_suggestions: usize)
        ensures
            final(self)@ == (StateView {
                items: if max_suggestions == 0 {
                    Seq::empty()
                } else {
                    items@.map_values(|i: CompletionItem| i@)
                },
                overflow: if items@.len() > max_suggestions {
                    (items@.len() - max_suggestions) as usize
                } else {
                    0
                },
                match_index: 0,
                dirty: false,
                ..old(self)@
            }),
    {
        let overflow = if items.len() > max_suggestions {
            items.len() - max_suggestions
        } else {
            0
        };
        let kept = if max_suggestions == 0 {
            no_items()
        } else {
            items
        };
        self.set_completions(kept, overflow);
    }
}

/// Candidates in best-first order.
pub open spec fn best_first(s: Seq<(u8, ItemView)>) -> bool {
    forall|i: int, j: int| 0 <= i < j < s.len() ==> ranks_before(#[trigger] s[i], #[trigger] s[j])
}

proof fn lemma_ranks_total(a: (u8, ItemView), b: (u8, ItemView))
    ensures
        ranks_before(a, b) || ranks_before(b, a),
{
    lemma_lex_asym(a.1.label, b.1.label);
}

proof fn lemma_ranks_trans(a: (u8, ItemView), b: (u8, ItemView), c: (u8, ItemView))
    requires
        ranks_before(a, b),
        ranks_before(b, c),
    ensures
        ranks_before(a, c),
{
    if a.0 == c.0 && a.0 == b.0 && lex_lt(c.1.label, a.1.label) {
        lemma_lex_total(a.1.label, b.1.label);
        if lex_lt(a.1.label, b.1.label) {
            lemma_lex_trans(c.1.label, a.1.label, b.1.label);
        }
    }
}

proof fn lemma_insert_stable(s: Seq<(u8, ItemView)>, x: (u8, ItemView))
    requires
        best_first(s),
    ensures
        best_first(insert_stable(s, x)),
        insert_stable(s, x).to_multiset() == s.to_multiset().insert(x),
        forall|k: int|
            0 <= k < insert_stable(s, x).len() ==> #[trigger] insert_stable(s, x)[k] == x || s.contains(
                insert_stable(s, x)[k],
            ),
    decreases s.len(),
{
    broadcast use vstd::seq_lib::group_seq_properties;
    broadcast use vstd::multiset::group_multiset_axioms;

    if s.len() == 0 {
        assert(seq![x].to_multiset() =~= vstd::multiset::Multiset::<(u8, ItemView)>::empty().insert(x)) by {
            assert(seq![x] =~= Seq::<(u8, ItemView)>::empty().push(x));
        }
    } else if ranks_before(s.last(), x) {
        let r = s.push(x);
        assert forall|i: int, j: int| 0 <= i < j < r.len() implies ranks_before(#[trigger] r[i], #[trigger] r[j]) by {
            if j == s.len() {
                if i < s.len() - 1 {
                    lemma_ranks_trans(s[i], s.last(), x);
                }
            }
        }
        assert forall|k: int| 0 <= k < r.len() implies #[trigger] r[k] == x || s.contains(r[k]) by {
            if k < s.len() {
                assert(s[k] == r[k]);
            }
        }
    } else {
        let t = s.drop_last();
        assert(best_first(t)) by {
            assert forall|i: int, j: int| 0 <= i < j < t.len() implies ranks_before(#[trigger] t[i], #[trigger] t[j]) by {
                assert(t[i] == s[i] && t[j] == s[j]);
            }
        }
        lemma_insert_stable(t, x);
        let u = insert_stable(t, x);
        let r = u.push(s.last());
        lemma_ranks_total(s.last(), x);
        assert forall|i: int, j: int| 0 <= i < j < r.len() implies ranks_before(#[trigger] r[i], #[trigger] r[j]) by {
            if j == u.len() {
                assert(r[i] == u[i]);
                if u[i] != x {
                    assert(t.contains(u[i]));
                    let m = choose|m: int| 0 <= m < t.len() && t[m] == u[i];
                    assert(s[m] == t[m]);
                    assert(ranks_before(s[m], s[s.len() - 1]));
                }
            } else {
                assert(r[i] == u[i] && r[j] == u[j]);
            }
        }
        assert forall|k: int| 0 <= k < r.len() implies #[trigger] r[k] == x || s.contains(r[k]) by {
            if k < u.len() {
                assert(r[k] == u[k]);
                if u[k] != x {
                    let m = choose|m: int| 0 <= m < t.len() && t[m] == u[k];
                    assert(s[m] == t[m]);
                }
            } else {
                assert(s[s.len() - 1] == r[k]);
            }
        }
        assert(s =~= t.push(s.last()));
    }
}

proof fn lemma_stable_sort(s: Seq<(u8, ItemView)>)
    ensures
        best_first(stable_sort(s)),
        stable_sort(s).to_multiset() == s.to_multiset(),
    decreases s.len(),
{
    broadcast use vstd::seq_lib::group_seq_properties;
    broadcast use vstd::multiset::group_multiset_axioms;

    if s.len() > 0 {
        lemma_stable_sort(s.drop_last());
        lemma_insert_stable(stable_sort(s.drop_last()), s.last());
        assert(s =~= s.drop_last().push(s.last()));
    } else {
        assert(stable_sort(s).to_multiset() =~= s.to_multiset());
    }
}

/// Ranking orders candidates best first (prefix matches before substring
/// matches, then by label) and keeps exactly the candidates that match, each
/// once.
pub proof fn law_ranking_best_first(items: Seq<ItemView>, fragment: Seq<char>)
    ensures
        best_first(stable_sort(ranked(items, fragment))),
        stable_sort(ranked(items, fragment)).to_multiset() == ranked(items, fragment).to_multiset(),
{
    lemma_stable_sort(ranked(items, fragment));
}

/// A candidate with its rank, when it matches `fragment`.
pub open spec fn rank_entry(fragment: Seq<char>) -> spec_fn(ItemView) -> Option<(u8, ItemView)> {
    |i: ItemView| match rank_of(i.label, fragment) {
        Some(r) => Some((r, i)),
        None => None,
    }
}

/// Ranking keeps exactly the matching candidates: the ranked list is every
/// candidate whose label matches the fragment, with its rank, in the given
/// order; sorted, it holds the same candidates, best first.
pub proof fn law_ranking_keeps_matches(items: Seq<ItemView>, fragment: Seq<char>)
    ensures
        ranked(items, fragment) == items.filter_map(rank_entry(fragment)),
        best_first(stable_sort(ranked(items, fragment))),
        stable_sort(ranked(items, fragment)).to_multiset() == items.filter_map(rank_entry(fragment)).to_multiset(),
    decreases items.len(),
{
    if items.len() > 0 {
        law_ranking_keeps_matches(items.drop_last(), fragment);
        let prev = items.drop_last().filter_map(rank_entry(fragment));
        match rank_of(items.last().label, fragment) {
            Some(r) => {
                assert(prev + seq![(r, items.last())] =~= prev.push((r, items.last())));
            },
            None => {},
        }
    }
    lemma_stable_sort(ranked(items, fragment));
}

} // verus!
