//! The built-in `state` command over the enum states an application exposes:
//! naming them, finding them, checking a requested transition and completing
//! its arguments. Reading and writing the states themselves is left to the
//! host, which hands the outcome back.

use crate::args::{Args, ArgsView};
use crate::buffer::{result_lines, ConsoleLevel, ConsoleResult};
use crate::commands::{error, info};
use crate::completion::{plain_item, static_completion_items};
use crate::model::{CompletionItem, CompletionRequest, ItemView, RequestView};
use crate::text::{cat, copy_str, eq_ignore_case, join_strings, join_with, str_eq, str_eq_ignore_case};
use vstd::prelude::*;

verus! {

broadcast use vstd::string::group_string_axioms;

/// One variant of a state enum.
#[derive(Debug)]
pub struct StateVariant {
    /// The variant's name.
    pub name: String,
    /// Whether the variant carries no data.
    pub unit: bool,
}

/// An enum state exposed to the console.
#[derive(Debug)]
pub struct StateEntry {
    /// The type's name without its module path.
    pub short_name: String,
    /// The type's full path.
    pub type_path: String,
    /// The enum's variants, in declaration order.
    pub variants: Vec<StateVariant>,
}

/// The model of a [`StateEntry`].
pub struct StateEntryView {
    pub short_name: Seq<char>,
    pub type_path: Seq<char>,
    pub variants: Seq<(Seq<char>, bool)>,
}

impl View for StateEntry {
    type V = StateEntryView;

    open spec fn view(&self) -> StateEntryView {
        StateEntryView {
            short_name: self.short_name@,
            type_path: self.type_path@,
            variants: self.variants@.map_values(|v: StateVariant| (v.name@, v.unit)),
        }
    }
}

/// Another state shares the short name of state `i`.
pub open spec fn short_taken(es: Seq<StateEntryView>, i: int) -> bool {
    exists|j: int| 0 <= j < es.len() && j != i && #[trigger] es[j].short_name == es[i].short_name
}

/// The console name of state `i`: its short name, or its full path when
/// another state shares the short name.
pub open spec fn state_name(es: Seq<StateEntryView>, i: int) -> Seq<char> {
    if short_taken(es, i) {
        es[i].type_path
    } else {
        es[i].short_name
    }
}

/// No two states have the same console name.
pub open spec fn names_distinct(es: Seq<StateEntryView>) -> bool {
    forall|i: int, j: int|
        0 <= i < j < es.len() ==> #[trigger] state_name(es, i) != #[trigger] state_name(es, j)
}

/// Some state has the full path `p`.
pub open spec fn path_taken(es: Seq<StateEntryView>, p: Seq<char>) -> bool {
    exists|i: int| 0 <= i < es.len() && #[trigger] es[i].type_path == p
}

/// State `i` answers to `name`: its console name or its full path.
pub open spec fn state_matches(es: Seq<StateEntryView>, i: int, name: Seq<char>) -> bool {
    state_name(es, i) == name || es[i].type_path == name
}

/// State `i` answers to `name` ignoring ASCII case.
#[verifier::opaque]
pub open spec fn state_matches_ignoring_case(es: Seq<StateEntryView>, i: int, name: Seq<char>) -> bool {
    eq_ignore_case(state_name(es, i), name) || eq_ignore_case(es[i].type_path, name)
}

/// The first state that answers to `name`.
pub open spec fn find_state(es: Seq<StateEntryView>, name: Seq<char>) -> Option<int> {
    if exists|i: int| 0 <= i < es.len() && state_matches(es, i, name) {
        Some(choose|i: int| 0 <= i < es.len() && state_matches(es, i, name)
            && forall|j: int| 0 <= j < i ==> !state_matches(es, j, name))
    } else {
        None
    }
}

/// How many of the first `n` states answer to `name` ignoring ASCII case.
pub open spec fn count_ignoring_case(es: Seq<StateEntryView>, name: Seq<char>, n: int) -> nat
    decreases n,
{
    if n <= 0 {
        0
    } else {
        count_ignoring_case(es, name, n - 1) + if state_matches_ignoring_case(es, n - 1, name) {
            1nat
        } else {
            0nat
        }
    }
}

/// The first of the first `n` states that answers to `name` ignoring ASCII
/// case.
pub open spec fn first_ignoring_case(es: Seq<StateEntryView>, name: Seq<char>, n: int) -> Option<int>
    decreases n,
{
    if n <= 0 {
        None
    } else {
        match first_ignoring_case(es, name, n - 1) {
            Some(f) => Some(f),
            None => if state_matches_ignoring_case(es, n - 1, name) {
                Some(n - 1)
            } else {
                None
            },
        }
    }
}

/// The one state that answers to `name` ignoring ASCII case, when exactly
/// one does.
pub open spec fn unique_match(es: Seq<StateEntryView>, name: Seq<char>) -> Option<int> {
    if count_ignoring_case(es, name, es.len() as int) == 1 {
        first_ignoring_case(es, name, es.len() as int)
    } else {
        None
    }
}

/// The state a completion looks up by `name`: the one that answers to it,
/// else the only one that does ignoring ASCII case.
pub open spec fn search_state(es: Seq<StateEntryView>, name: Seq<char>) -> Option<int> {
    match find_state(es, name) {
        Some(i) => Some(i),
        None => unique_match(es, name),
    }
}

proof fn lemma_find_first(es: Seq<StateEntryView>, name: Seq<char>, i: int)
    requires
        0 <= i < es.len(),
        state_matches(es, i, name),
        forall|j: int| 0 <= j < i ==> !state_matches(es, j, name),
    ensures
        find_state(es, name) == Some(i),
{
    let c = choose|c: int| 0 <= c < es.len() && state_matches(es, c, name)
        && forall|j: int| 0 <= j < c ==> !state_matches(es, j, name);
    assert(0 <= c < es.len() && state_matches(es, c, name) && forall|j: int| 0 <= j < c ==> !state_matches(es, j, name));
    if c < i {
        assert(!state_matches(es, c, name));
    } else if c > i {
        assert(!state_matches(es, i, name));
    }
}

/// The names of the unit variants, in order.
pub open spec fn unit_names(vs: Seq<(Seq<char>, bool)>) -> Seq<Seq<char>>
    decreases vs.len(),
{
    if vs.len() == 0 {
        Seq::empty()
    } else {
        let prev = unit_names(vs.drop_last());
        if vs.last().1 {
            prev.push(vs.last().0)
        } else {
            prev
        }
    }
}

/// Why a state could not be exposed.
#[derive(Debug, Clone, Copy, PartialEq, Eq, Structural)]
pub enum StateRegistrationError {
    /// A state with the same full path is exposed already.
    AlreadyRegistered,
    /// Two states would answer to the same name even by their full paths.
    Ambiguous,
}

/// The enum states exposed to the console, in the order they were added.
pub struct ConsoleStates {
    entries: Vec<StateEntry>,
    names: Vec<String>,
}

impl ConsoleStates {
    /// The exposed states.
    pub closed spec fn views(&self) -> Seq<StateEntryView> {
        self.entries@.map_values(|e: StateEntry| e@)
    }

    #[verifier::type_invariant]
    closed spec fn wf(&self) -> bool {
        &&& self.names@.len() == self.entries@.len()
        &&& forall|i: int| 0 <= i < self.names@.len() ==> #[trigger] self.names@[i]@ == state_name(self.views(), i)
        &&& names_distinct(self.views())
        &&& forall|i: int, j: int|
            0 <= i < j < self.entries@.len() ==> #[trigger] self.views()[i].type_path
                != #[trigger] self.views()[j].type_path
    }

    /// No states.
    pub fn new() -> (r: Self)
        ensures
            r.views() == Seq::<StateEntryView>::empty(),
    {
        let r = ConsoleStates { entries: Vec::new(), names: Vec::new() };
        assert(r.views() =~= Seq::<StateEntryView>::empty());
        r
    }

    /// How many states are exposed.
    pub fn len(&self) -> (r: usize)
        ensures
            r == self.views().len(),
    {
        self.entries.len()
    }

    /// The console name of state `index`.
    pub fn name(&self, index: usize) -> (r: &str)
        requires
            index < self.views().len(),
        ensures
            r@ == state_name(self.views(), index as int),
    {
        proof {
            use_type_invariant(self);
        }
        self.names[index].as_str()
    }

    /// State `index`.
    pub fn entry(&self, index: usize) -> (r: &StateEntry)
        requires
            index < self.views().len(),
        ensures
            r@ == self.views()[index as int],
    {
        &self.entries[index]
    }

    /// Exposes `entry`, renaming every state whose short name it shares to
    /// its full path. Refused, with nothing changed, when its full path is
    /// exposed already or when two states would still share a name.
    pub fn register(&mut self, entry: StateEntry) -> (r: Result<(), StateRegistrationError>)
        ensures
            path_taken(old(self).views(), entry@.type_path) ==> r == Err::<(), StateRegistrationError>(
                StateRegistrationError::AlreadyRegistered,
            ) && final(self).views() == old(self).views(),
            !path_taken(old(self).views(), entry@.type_path) && !names_distinct(
                old(self).views().push(entry@),
            ) ==> r == Err::<(), StateRegistrationError>(StateRegistrationError::Ambiguous)
                && final(self).views() == old(self).views(),
            !path_taken(old(self).views(), entry@.type_path) && names_distinct(
                old(self).views().push(entry@),
            ) ==> r is Ok && final(self).views() == old(self).views().push(entry@),
    {
        proof {
            use_type_invariant(&*self);
        }
        let ghost es = self.views();
        let n = self.entries.len();
        let mut k: usize = 0;
        while k < n
            invariant
                0 <= k <= n,
                n == self.entries@.len(),
                es == self.views(),
                forall|j: int| 0 <= j < k ==> es[j].type_path != entry@.type_path,
            decreases n - k,
        {
            if str_eq(self.entries[k].type_path.as_str(), entry.type_path.as_str()) {
                assert(es[k as int].type_path == entry@.type_path);
                return Err(StateRegistrationError::AlreadyRegistered);
            }
            k = k + 1;
        }
        let ghost ev = entry@;
        let ghost all = es.push(ev);
        let mut cur = ConsoleStates::new();
        std::mem::swap(&mut cur, self);
        proof {
            use_type_invariant(&cur);
        }
        let ConsoleStates { entries, names: old_names } = cur;
        let ghost old_entries = entries@;
        let mut entries = entries;
        entries.push(entry);
        assert(entries@.map_values(|e: StateEntry| e@) =~= all);
        let names = state_names(&entries);
        if !all_distinct(&names) {
            proof {
                assert(!names_distinct(all)) by {
                    let (p, q) = choose|p: int, q: int| 0 <= p < q < names@.len() && names@[p]@ == names@[q]@;
                    assert(names@[p]@ == state_name(all, p));
                    assert(names@[q]@ == state_name(all, q));
                }
            }
            let mut last = entries;
            let _ = last.pop();
            assert(last@ =~= old_entries);
            *self = ConsoleStates { entries: last, names: old_names };
            return Err(StateRegistrationError::Ambiguous);
        }
        proof {
            assert forall|p: int, q: int| 0 <= p < q < all.len() implies #[trigger] state_name(all, p)
                != #[trigger] state_name(all, q) by {
                assert(names@[p]@ == state_name(all, p));
                assert(names@[q]@ == state_name(all, q));
            }
        }
        *self = ConsoleStates { entries, names };
        Ok(())
    }

    /// The first state that answers to `name` (see [`find_state`]).
    pub fn get(&self, name: &str) -> (r: Option<usize>)
        ensures
            r matches Some(i) ==> i < self.views().len() && state_matches(self.views(), i as int, name@)
                && forall|j: int| 0 <= j < i ==> !state_matches(self.views(), j, name@),
            r is None ==> forall|j: int| 0 <= j < self.views().len() ==> !state_matches(self.views(), j, name@),
            r matches Some(i) ==> find_state(self.views(), name@) == Some(i as int),
            r is None ==> find_state(self.views(), name@) is None,
    {
        proof {
            use_type_invariant(self);
        }
        let mut i: usize = 0;
        while i < self.entries.len()
            invariant
                0 <= i <= self.entries@.len(),
                self.names@.len() == self.entries@.len(),
                forall|p: int| 0 <= p < self.names@.len() ==> #[trigger] self.names@[p]@ == state_name(self.views(), p),
                forall|j: int| 0 <= j < i ==> !state_matches(self.views(), j, name@),
            decreases self.entries@.len() - i,
        {
            assert(self.views()[i as int] == self.entries@[i as int]@);
            if str_eq(self.names[i].as_str(), name) || str_eq(self.entries[i].type_path.as_str(), name) {
                proof {
                    lemma_find_first(self.views(), name@, i as int);
                }
                return Some(i);
            }
            i = i + 1;
        }
        None
    }

    /// The state that answers to `name`; failing that, the one state that
    /// answers to it ignoring ASCII case, when exactly one does.
    pub fn search(&self, name: &str) -> (r: Option<usize>)
        ensures
            r matches Some(i) ==> search_state(self.views(), name@) == Some(i as int),
            r is None ==> search_state(self.views(), name@) is None,
            r matches Some(i) ==> i < self.views().len(),
    {
        match self.get(name) {
            Some(i) => Some(i),
            None => self.unique_ignoring_case(name),
        }
    }

    /// The one state that answers to `name` ignoring ASCII case (see
    /// [`unique_match`]).
    fn unique_ignoring_case(&self, name: &str) -> (r: Option<usize>)
        ensures
            r matches Some(i) ==> unique_match(self.views(), name@) == Some(i as int),
            r is None ==> unique_match(self.views(), name@) is None,
            r matches Some(i) ==> i < self.views().len(),
    {
        proof {
            use_type_invariant(self);
        }
        let ghost es = self.views();
        let n = self.entries.len();
        let mut found: Option<usize> = None;
        let mut count: usize = 0;
        let mut i: usize = 0;
        while i < n
            invariant
                0 <= i <= n,
                n == es.len(),
                es == self.views(),
                self.names@.len() == n,
                forall|p: int| 0 <= p < n ==> #[trigger] self.names@[p]@ == state_name(es, p),
                count == count_ignoring_case(es, name@, i as int),
                count <= i,
                found matches Some(f) ==> first_ignoring_case(es, name@, i as int) == Some(f as int) && f < i,
                found is None ==> first_ignoring_case(es, name@, i as int) is None,
            decreases n - i,
        {
            assert(es[i as int] == self.entries@[i as int]@);
            let hit = str_eq_ignore_case(self.names[i].as_str(), name) || str_eq_ignore_case(
                self.entries[i].type_path.as_str(),
                name,
            );
            assert(hit == state_matches_ignoring_case(es, i as int, name@)) by {
                reveal(state_matches_ignoring_case);
            }
            if hit {
                count = count + 1;
                if found.is_none() {
                    found = Some(i);
                }
            }
            i = i + 1;
        }
        if count == 1 {
            found
        } else {
            None
        }
    }

    /// The names of the unit variants of state `index`, in order.
    pub fn unit_variants(&self, index: usize) -> (r: Vec<String>)
        requires
            index < self.views().len(),
        ensures
            r@.map_values(|s: String| s@) == unit_names(self.views()[index as int].variants),
    {
        let vs = &self.entries[index].variants;
        let ghost vv = self.views()[index as int].variants;
        let mut out: Vec<String> = Vec::new();
        let mut k: usize = 0;
        assert(vv.take(0) =~= Seq::<(Seq<char>, bool)>::empty());
        assert(out@.map_values(|s: String| s@) =~= Seq::<Seq<char>>::empty());
        while k < vs.len()
            invariant
                0 <= k <= vs@.len(),
                vv == vs@.map_values(|v: StateVariant| (v.name@, v.unit)),
                out@.map_values(|s: String| s@) == unit_names(vv.take(k as int)),
            decreases vs@.len() - k,
        {
            assert(vv.take(k + 1).drop_last() =~= vv.take(k as int));
            assert(vv.take(k + 1).last() == (vs@[k as int].name@, vs@[k as int].unit));
            if vs[k].unit {
                out.push(copy_str(vs[k].name.as_str()));
                assert(out@.map_values(|s: String| s@) =~= unit_names(vv.take(k as int)).push(
                    vs@[k as int].name@,
                ));
            }
            k = k + 1;
        }
        assert(vv.take(vs@.len() as int) =~= vv);
        out
    }
}

impl Default for ConsoleStates {
    fn default() -> (r: Self)
        ensures
            r.views() == Seq::<StateEntryView>::empty(),
    {
        ConsoleStates::new()
    }
}

/// No two of `names` are equal.
fn all_distinct(names: &Vec<String>) -> (r: bool)
    ensures
        r == forall|p: int, q: int| 0 <= p < q < names@.len() ==> names@[p]@ != names@[q]@,
{
    let n = names.len();
    let mut i: usize = 1;
    if n == 0 {
        return true;
    }
    while i < n
        invariant
            1 <= i <= n,
            n == names@.len(),
            forall|p: int, q: int| 0 <= p < q < i ==> names@[p]@ != names@[q]@,
        decreases n - i,
    {
        let mut j: usize = 0;
        while j < i
            invariant
                0 <= j <= i < n,
                n == names@.len(),
                forall|p: int| 0 <= p < j ==> names@[p]@ != names@[i as int]@,
            decreases i - j,
        {
            if str_eq(names[j].as_str(), names[i].as_str()) {
                return false;
            }
            j = j + 1;
        }
        i = i + 1;
    }
    true
}

/// The console name of every state of `entries`.
fn state_names(entries: &Vec<StateEntry>) -> (r: Vec<String>)
    ensures
        r@.len() == entries@.len(),
        forall|p: int|
            0 <= p < entries@.len() ==> #[trigger] r@[p]@ == state_name(
                entries@.map_values(|e: StateEntry| e@),
                p,
            ),
{
    let ghost es = entries@.map_values(|e: StateEntry| e@);
    let n = entries.len();
    let mut out: Vec<String> = Vec::new();
    let mut i: usize = 0;
    while i < n
        invariant
            0 <= i <= n,
            n == entries@.len(),
            es == entries@.map_values(|e: StateEntry| e@),
            out@.len() == i,
            forall|p: int| 0 <= p < i ==> #[trigger] out@[p]@ == state_name(es, p),
        decreases n - i,
    {
        let mut taken = false;
        let mut j: usize = 0;
        while j < n
            invariant
                0 <= j <= n,
                i < n,
                n == entries@.len(),
                es == entries@.map_values(|e: StateEntry| e@),
                taken == exists|q: int| 0 <= q < j && q != i && #[trigger] es[q].short_name == es[i as int].short_name,
            decreases n - j,
        {
            assert(es[j as int] == entries@[j as int]@);
            assert(es[i as int] == entries@[i as int]@);
            if j != i && str_eq(entries[j].short_name.as_str(), entries[i].short_name.as_str()) {
                assert(es[j as int].short_name == es[i as int].short_name);
                taken = true;
            } else {
                assert(j == i || es[j as int].short_name != es[i as int].short_name);
            }
            j = j + 1;
        }
        assert(taken == short_taken(es, i as int));
        assert(es[i as int] == entries@[i as int]@);
        if taken {
            out.push(copy_str(entries[i].type_path.as_str()));
        } else {
            out.push(copy_str(entries[i].short_name.as_str()));
        }
        i = i + 1;
    }
    out
}


/// The index of the first variant named `v`.
pub open spec fn variant_index(vs: Seq<(Seq<char>, bool)>, v: Seq<char>) -> Option<int>
    decreases vs.len(),
{
    if vs.len() == 0 {
        None
    } else {
        match variant_index(vs.drop_last(), v) {
            Some(k) => Some(k),
            None => if vs.last().0 == v {
                Some(vs.len() - 1)
            } else {
                None
            },
        }
    }
}

proof fn lemma_variant_index(vs: Seq<(Seq<char>, bool)>, v: Seq<char>)
    ensures
        variant_index(vs, v) matches Some(k) ==> 0 <= k < vs.len() && vs[k].0 == v,
    decreases vs.len(),
{
    if vs.len() > 0 {
        lemma_variant_index(vs.drop_last(), v);
    }
}

/// The general usage line of `state`.
pub open spec fn state_usage() -> Seq<char> {
    "Usage: state <get|set> <state> [value]"@
}

/// What the `state` command does with its arguments.
pub enum StatePlan {
    /// Answer at once.
    Reply(ConsoleResult),
    /// Read the current value of state `.0`.
    Get(usize),
    /// Queue a transition of state `.0` to unit variant `.1`.
    Transition(usize, String),
}

/// The model of a [`StatePlan`].
pub enum StatePlanView {
    Reply(Seq<(ConsoleLevel, Seq<char>)>),
    Get(int),
    Transition(int, Seq<char>),
}

impl View for StatePlan {
    type V = StatePlanView;

    open spec fn view(&self) -> StatePlanView {
        match self {
            StatePlan::Reply(r) => StatePlanView::Reply(result_lines(*r)),
            StatePlan::Get(i) => StatePlanView::Get(*i as int),
            StatePlan::Transition(i, v) => StatePlanView::Transition(*i as int, v@),
        }
    }
}

/// `state get <state>` and `state set <state> <value>`: the state is found
/// by name (see [`find_state`]) and the operation is matched exactly; a set
/// must name a unit variant.
pub open spec fn state_plan(es: Seq<StateEntryView>, a: ArgsView) -> StatePlanView {
    let n = a.values.len();
    if n < 2 {
        StatePlanView::Reply(error(state_usage()))
    } else {
        let name = a.values[1];
        match find_state(es, name) {
            None => StatePlanView::Reply(
                error("Unknown reflected state: "@ + name + ". Call add_console_state::<S>() to expose it"@),
            ),
            Some(i) => {
                let op = a.values[0];
                let sn = state_name(es, i);
                if op == "get"@ && n == 2 {
                    StatePlanView::Get(i)
                } else if op == "set"@ && n == 3 {
                    let v = a.values[2];
                    let vs = es[i].variants;
                    match variant_index(vs, v) {
                        None => StatePlanView::Reply(
                            error(
                                "Invalid value for "@ + sn + ": expected one of: "@ + join_with(
                                    unit_names(vs),
                                    ", "@,
                                ),
                            ),
                        ),
                        Some(k) => if vs[k].1 {
                            StatePlanView::Transition(i, v)
                        } else {
                            StatePlanView::Reply(
                                error(
                                    "Invalid value for "@ + sn + ": "@ + v
                                        + " has data; only unit enum variants are supported"@,
                                ),
                            )
                        },
                    }
                } else if op == "get"@ {
                    StatePlanView::Reply(error("Usage: state get <state>"@))
                } else if op == "set"@ {
                    StatePlanView::Reply(error("Usage: state set <state> <value>"@))
                } else {
                    StatePlanView::Reply(error(state_usage()))
                }
            },
        }
    }
}

/// The first variant of `vs` named `v`.
fn find_variant(vs: &Vec<StateVariant>, v: &str) -> (r: Option<usize>)
    ensures
        r matches Some(k) ==> variant_index(vs@.map_values(|x: StateVariant| (x.name@, x.unit)), v@)
            == Some(k as int),
        r is None ==> variant_index(vs@.map_values(|x: StateVariant| (x.name@, x.unit)), v@) is None,
{
    let ghost vv = vs@.map_values(|x: StateVariant| (x.name@, x.unit));
    let mut k: usize = 0;
    while k < vs.len()
        invariant
            0 <= k <= vs@.len(),
            vv == vs@.map_values(|x: StateVariant| (x.name@, x.unit)),
            variant_index(vv.take(k as int), v@) is None,
        decreases vs@.len() - k,
    {
        assert(vv.take(k + 1).drop_last() =~= vv.take(k as int));
        if str_eq(vs[k].name.as_str(), v) {
            proof {
                lemma_variant_prefix(vv, v@, k + 1);
            }
            return Some(k);
        }
        k = k + 1;
    }
    assert(vv.take(vs@.len() as int) =~= vv);
    None
}

/// A variant found among the first `n` is the first in the whole list.
proof fn lemma_variant_prefix(vv: Seq<(Seq<char>, bool)>, v: Seq<char>, n: int)
    requires
        0 < n <= vv.len(),
        variant_index(vv.take(n), v) is Some,
    ensures
        variant_index(vv, v) == variant_index(vv.take(n), v),
    decreases vv.len() - n,
{
    if n < vv.len() {
        assert(vv.take(n + 1).drop_last() =~= vv.take(n));
        lemma_variant_prefix(vv, v, n + 1);
    } else {
        assert(vv.take(n) =~= vv);
    }
}

/// The `state` command's decision (see [`state_plan`]).
pub fn plan_state_command(states: &ConsoleStates, args: &Args) -> (r: StatePlan)
    ensures
        r@ == state_plan(states.views(), args@),
        r matches StatePlan::Get(i) ==> i < states.views().len(),
        r matches StatePlan::Transition(i, _) ==> i < states.views().len(),
{
    let usage = "Usage: state <get|set> <state> [value]";
    let operation = match args.get(0) {
        Some(op) => op,
        None => {
            return StatePlan::Reply(ConsoleResult::error(usage));
        },
    };
    let name = match args.get(1) {
        Some(name) => name,
        None => {
            return StatePlan::Reply(ConsoleResult::error(usage));
        },
    };
    let index = match states.get(name) {
        Some(i) => i,
        None => {
            let text = cat("Unknown reflected state: ", name);
            return StatePlan::Reply(
                ConsoleResult::error(cat(text.as_str(), ". Call add_console_state::<S>() to expose it").as_str()),
            );
        },
    };
    let n = args.len();
    let state_name = states.name(index);
    if str_eq(operation, "get") && n == 2 {
        return StatePlan::Get(index);
    }
    if str_eq(operation, "set") && n == 3 {
        let value = match args.get(2) {
            Some(v) => v,
            None => {
                return StatePlan::Reply(ConsoleResult::error(usage));
            },
        };
        let entry = states.entry(index);
        let prefix = cat("Invalid value for ", state_name);
        match find_variant(&entry.variants, value) {
            None => {
                let units = states.unit_variants(index);
                let text = cat(prefix.as_str(), ": expected one of: ");
                let listed = join_strings(units.as_slice(), ", ");
                return StatePlan::Reply(ConsoleResult::error(cat(text.as_str(), listed.as_str()).as_str()));
            },
            Some(k) => {
                proof {
                    lemma_variant_index(entry@.variants, value@);
                    assert(entry@.variants[k as int] == (entry.variants@[k as int].name@, entry.variants@[k as int].unit));
                }
                if entry.variants[k].unit {
                    return StatePlan::Transition(index, copy_str(value));
                }
                let text = cat(prefix.as_str(), ": ");
                let text = cat(text.as_str(), value);
                return StatePlan::Reply(
                    ConsoleResult::error(
                        cat(text.as_str(), " has data; only unit enum variants are supported").as_str(),
                    ),
                );
            },
        }
    }
    if str_eq(operation, "get") {
        return StatePlan::Reply(ConsoleResult::error("Usage: state get <state>"));
    }
    if str_eq(operation, "set") {
        return StatePlan::Reply(ConsoleResult::error("Usage: state set <state> <value>"));
    }
    StatePlan::Reply(ConsoleResult::error(usage))
}

/// The reply to `state get` once the value of state `index` was read:
/// `<name> = <value>`, or the reason it could not be read.
pub fn state_value_reply(states: &ConsoleStates, index: usize, value: Result<&str, &str>) -> (r: ConsoleResult)
    requires
        index < states.views().len(),
    ensures
        result_lines(r) == match value {
            Ok(v) => info(state_name(states.views(), index as int) + " = "@ + v@),
            Err(e) => error(e@),
        },
{
    match value {
        Ok(v) => {
            let text = cat(states.name(index), " = ");
            ConsoleResult::info(cat(text.as_str(), v).as_str())
        },
        Err(e) => ConsoleResult::error(e),
    }
}

/// The reply to `state set` once the transition was queued:
/// `<name> = <value> (pending)`, or why it was refused.
pub fn state_transition_reply(states: &ConsoleStates, index: usize, outcome: Result<&str, &str>) -> (r:
    ConsoleResult)
    requires
        index < states.views().len(),
    ensures
        result_lines(r) == match outcome {
            Ok(v) => info(state_name(states.views(), index as int) + " = "@ + v@ + " (pending)"@),
            Err(e) => error("Invalid value for "@ + state_name(states.views(), index as int) + ": "@ + e@),
        },
{
    match outcome {
        Ok(v) => {
            let text = cat(states.name(index), " = ");
            let text = cat(text.as_str(), v);
            ConsoleResult::info(cat(text.as_str(), " (pending)").as_str())
        },
        Err(e) => {
            let text = cat("Invalid value for ", states.name(index));
            let text = cat(text.as_str(), ": ");
            ConsoleResult::error(cat(text.as_str(), e).as_str())
        },
    }
}

/// Why state `index` could not be read: it was never initialized.
pub fn state_uninitialized(states: &ConsoleStates, index: usize) -> (r: String)
    requires
        index < states.views().len(),
    ensures
        r@ == "State `"@ + state_name(states.views(), index as int) + "` is not initialized"@,
{
    let text = cat("State `", states.name(index));
    cat(text.as_str(), "` is not initialized")
}

/// The candidates for argument `req.argument_index` of `state`: the two
/// operations; every state's name; or, after `set` (any case) and a state
/// found by [`search_state`], its unit variants.
pub open spec fn state_completions(req: RequestView, es: Seq<StateEntryView>) -> Seq<ItemView> {
    let toks = req.parsed.tokens;
    if req.argument_index == 0 {
        seq![
            plain_item("get"@, "Shows the current state value"@),
            plain_item("set"@, "Queues a state transition"@),
        ]
    } else if req.argument_index == 1 {
        Seq::new(es.len(), |i: int| plain_item(state_name(es, i), "reflected state"@))
    } else if req.argument_index == 2 && toks.len() > 2 && eq_ignore_case(toks[1].value, "set"@) {
        match search_state(es, toks[2].value) {
            Some(i) => unit_names(es[i].variants).map_values(|v: Seq<char>| plain_item(v, Seq::empty())),
            None => Seq::empty(),
        }
    } else {
        Seq::empty()
    }
}

/// The `state` completer (see [`state_completions`]).
pub fn complete_state(request: &CompletionRequest, states: &ConsoleStates) -> (r: Vec<CompletionItem>)
    ensures
        r@.map_values(|i: CompletionItem| i@) == state_completions(request@, states.views()),
{
    let index = request.argument_index();
    if index == 0 {
        let ops = [("get", "Shows the current state value"), ("set", "Queues a state transition")];
        let r = static_completion_items(&ops);
        assert(r@.map_values(|i: CompletionItem| i@) =~= state_completions(request@, states.views()));
        return r;
    }
    if index == 1 {
        let mut out: Vec<CompletionItem> = Vec::new();
        let mut k: usize = 0;
        while k < states.len()
            invariant
                0 <= k <= states.views().len(),
                out@.len() == k,
                forall|j: int|
                    0 <= j < k ==> (#[trigger] out@[j])@ == plain_item(
                        state_name(states.views(), j),
                        "reflected state"@,
                    ),
            decreases states.views().len() - k,
        {
            proof {
                reveal_strlit("reflected state");
            }
            out.push(CompletionItem::new(states.name(k), "reflected state"));
            k = k + 1;
        }
        assert(out@.map_values(|i: CompletionItem| i@) =~= state_completions(request@, states.views()));
        return out;
    }
    let mut out: Vec<CompletionItem> = Vec::new();
    if index == 2 {
        let is_set = match request.argument(0) {
            Some(op) => str_eq_ignore_case(op, "set"),
            None => false,
        };
        if is_set {
            if let Some(name) = request.argument(1) {
                if let Some(i) = states.search(name) {
                    let units = states.unit_variants(i);
                    let ghost uv = unit_names(states.views()[i as int].variants);
                    let mut k: usize = 0;
                    while k < units.len()
                        invariant
                            0 <= k <= units@.len(),
                            units@.map_values(|s: String| s@) == uv,
                            out@.len() == k,
                            forall|j: int| 0 <= j < k ==> (#[trigger] out@[j])@ == plain_item(uv[j], Seq::empty()),
                        decreases units@.len() - k,
                    {
                        assert(uv[k as int] == units@[k as int]@);
                        out.push(CompletionItem::from_label(units[k].as_str()));
                        k = k + 1;
                    }
                    assert(out@.map_values(|i: CompletionItem| i@) =~= state_completions(
                        request@,
                        states.views(),
                    ));
                    return out;
                }
            }
        }
    }
    assert(out@.map_values(|i: CompletionItem| i@) =~= state_completions(request@, states.views()));
    out
}

} // verus!
