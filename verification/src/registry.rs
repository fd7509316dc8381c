//! The registry of console commands: lookup by name or registered alias,
//! completion search, and the rules a new registration must respect.

use crate::model::CommandSpec;
use crate::table::{chars_lex_lt, lemma_lex_asym, lemma_lex_irreflexive, lemma_lex_total, lemma_lex_trans, lex_lt};
use crate::text::{cat, chars_eq, chars_of, eq_ignore_case, str_eq, str_eq_ignore_case};
use vstd::prelude::*;

verus! {

broadcast use vstd::string::group_string_axioms;

/// A registered command: its metadata and the handles the application uses
/// to run it and to complete its arguments.
pub struct CommandDef {
    pub spec: CommandSpec,
    /// The application's handle for the command's executor.
    pub executor: u64,
    /// The application's handle for the command's completer, if it has one.
    pub completer: Option<u64>,
}

/// `a` is one of the registered aliases of `d`.
pub open spec fn has_alias(d: CommandDef, a: Seq<char>) -> bool {
    exists|k: int| 0 <= k < d.spec.aliases@.len() && (#[trigger] d.spec.aliases@[k])@ == a
}

/// Command names in strictly increasing order.
pub open spec fn names_sorted(defs: Seq<CommandDef>) -> bool {
    forall|i: int, j: int|
        0 <= i < j < defs.len() ==> lex_lt(#[trigger] defs[i].spec.name@, #[trigger] defs[j].spec.name@)
}

/// The first command from index `from` on named `n`.
pub open spec fn find_name(defs: Seq<CommandDef>, n: Seq<char>, from: int) -> Option<int>
    decreases defs.len() - from,
{
    if from < 0 || from >= defs.len() {
        None
    } else if defs[from].spec.name@ == n {
        Some(from)
    } else {
        find_name(defs, n, from + 1)
    }
}

/// The first command from index `from` on that has alias `a`.
pub open spec fn alias_owner(defs: Seq<CommandDef>, a: Seq<char>, from: int) -> Option<int>
    decreases defs.len() - from,
{
    if from < 0 || from >= defs.len() {
        None
    } else if has_alias(defs[from], a) {
        Some(from)
    } else {
        alias_owner(defs, a, from + 1)
    }
}

/// The command that `n` names exactly: by its name, else by a registered alias.
pub open spec fn resolve(defs: Seq<CommandDef>, n: Seq<char>) -> Option<int> {
    match find_name(defs, n, 0) {
        Some(i) => Some(i),
        None => alias_owner(defs, n, 0),
    }
}

/// `d`'s name or one of its aliases equals `n` up to ASCII case.
pub open spec fn matches_ignoring_case(d: CommandDef, n: Seq<char>) -> bool {
    eq_ignore_case(d.spec.name@, n) || exists|k: int|
        0 <= k < d.spec.aliases@.len() && eq_ignore_case((#[trigger] d.spec.aliases@[k])@, n)
}

/// The first command from index `from` on that matches `n` ignoring case.
pub open spec fn first_case_match(defs: Seq<CommandDef>, n: Seq<char>, from: int) -> Option<int>
    decreases defs.len() - from,
{
    if from < 0 || from >= defs.len() {
        None
    } else if matches_ignoring_case(defs[from], n) {
        Some(from)
    } else {
        first_case_match(defs, n, from + 1)
    }
}

/// Completion search: the exact command, else the only command that matches
/// ignoring ASCII case.
pub open spec fn search_result(defs: Seq<CommandDef>, n: Seq<char>) -> Option<int> {
    match resolve(defs, n) {
        Some(i) => Some(i),
        None => match first_case_match(defs, n, 0) {
            Some(i) => if first_case_match(defs, n, i + 1) is None {
                Some(i)
            } else {
                None
            },
            None => None,
        },
    }
}

pub proof fn lemma_find_name(defs: Seq<CommandDef>, n: Seq<char>, from: int)
    requires
        0 <= from,
    ensures
        find_name(defs, n, from) matches Some(i) ==> from <= i < defs.len() && defs[i].spec.name@
            == n,
        find_name(defs, n, from) is None ==> forall|i: int|
            from <= i < defs.len() ==> (#[trigger] defs[i]).spec.name@ != n,
    decreases defs.len() - from,
{
    if from < defs.len() && defs[from].spec.name@ != n {
        lemma_find_name(defs, n, from + 1);
    }
}

pub proof fn lemma_alias_owner(defs: Seq<CommandDef>, a: Seq<char>, from: int)
    requires
        0 <= from,
    ensures
        alias_owner(defs, a, from) matches Some(i) ==> from <= i < defs.len() && has_alias(
            defs[i],
            a,
        ),
        alias_owner(defs, a, from) is None ==> forall|i: int|
            from <= i < defs.len() ==> !has_alias(#[trigger] defs[i], a),
    decreases defs.len() - from,
{
    if from < defs.len() && !has_alias(defs[from], a) {
        lemma_alias_owner(defs, a, from + 1);
    }
}

pub proof fn lemma_first_case_match(defs: Seq<CommandDef>, n: Seq<char>, from: int)
    requires
        0 <= from,
    ensures
        first_case_match(defs, n, from) matches Some(i) ==> from <= i < defs.len()
            && matches_ignoring_case(defs[i], n),
    decreases defs.len() - from,
{
    if from < defs.len() && !matches_ignoring_case(defs[from], n) {
        lemma_first_case_match(defs, n, from + 1);
    }
}

/// Why a command cannot be registered.
#[derive(Debug)]
pub enum RegistrationConflict {
    /// The name is a registered alias of another command.
    NameIsAlias { name: String, canonical: String },
    /// An alias repeats the command's own name.
    AliasIsName { name: String },
    /// An alias is the name of a registered command.
    AliasIsCommand { alias: String, name: String },
    /// An alias is a registered alias of another command.
    AliasIsOtherAlias { alias: String, name: String, canonical: String },
    /// An alias is listed twice.
    RepeatedAlias { alias: String, name: String },
}

/// The model of a [`RegistrationConflict`].
pub enum ConflictView {
    NameIsAlias { name: Seq<char>, canonical: Seq<char> },
    AliasIsName { name: Seq<char> },
    AliasIsCommand { alias: Seq<char>, name: Seq<char> },
    AliasIsOtherAlias { alias: Seq<char>, name: Seq<char>, canonical: Seq<char> },
    RepeatedAlias { alias: Seq<char>, name: Seq<char> },
}

impl View for RegistrationConflict {
    type V = ConflictView;

    open spec fn view(&self) -> ConflictView {
        match self {
            RegistrationConflict::NameIsAlias { name, canonical } => ConflictView::NameIsAlias {
                name: name@,
                canonical: canonical@,
            },
            RegistrationConflict::AliasIsName { name } => ConflictView::AliasIsName { name: name@ },
            RegistrationConflict::AliasIsCommand { alias, name } => ConflictView::AliasIsCommand {
                alias: alias@,
                name: name@,
            },
            RegistrationConflict::AliasIsOtherAlias {
                alias,
                name,
                canonical,
            } => ConflictView::AliasIsOtherAlias {
                alias: alias@,
                name: name@,
                canonical: canonical@,
            },
            RegistrationConflict::RepeatedAlias { alias, name } => ConflictView::RepeatedAlias {
                alias: alias@,
                name: name@,
            },
        }
    }
}

/// The text that reports a registration conflict.
pub open spec fn conflict_text(c: ConflictView) -> Seq<char> {
    match c {
        ConflictView::NameIsAlias { name, canonical } => "command `"@ + name + "` collides with alias for `"@
            + canonical + "`"@,
        ConflictView::AliasIsName { name } => "command `"@ + name + "` cannot alias itself"@,
        ConflictView::AliasIsCommand { alias, name } => "alias `"@ + alias + "` for `"@ + name
            + "` collides with registered command"@,
        ConflictView::AliasIsOtherAlias { alias, name, canonical } => "alias `"@ + alias + "` for `"@ + name
            + "` collides with alias for `"@ + canonical + "`"@,
        ConflictView::RepeatedAlias { alias, name } => "alias `"@ + alias + "` is repeated for command `"@
            + name + "`"@,
    }
}

impl RegistrationConflict {
    /// The text that reports this conflict (see [`conflict_text`]).
    pub fn message(&self) -> (r: String)
        ensures
            r@ == conflict_text(self@),
    {
        match self {
            RegistrationConflict::NameIsAlias { name, canonical } => {
                let t = cat("command `", name.as_str());
                let t = cat(t.as_str(), "` collides with alias for `");
                let t = cat(t.as_str(), canonical.as_str());
                cat(t.as_str(), "`")
            },
            RegistrationConflict::AliasIsName { name } => {
                let t = cat("command `", name.as_str());
                cat(t.as_str(), "` cannot alias itself")
            },
            RegistrationConflict::AliasIsCommand { alias, name } => {
                let t = cat("alias `", alias.as_str());
                let t = cat(t.as_str(), "` for `");
                let t = cat(t.as_str(), name.as_str());
                cat(t.as_str(), "` collides with registered command")
            },
            RegistrationConflict::AliasIsOtherAlias { alias, name, canonical } => {
                let t = cat("alias `", alias.as_str());
                let t = cat(t.as_str(), "` for `");
                let t = cat(t.as_str(), name.as_str());
                let t = cat(t.as_str(), "` collides with alias for `");
                let t = cat(t.as_str(), canonical.as_str());
                cat(t.as_str(), "`")
            },
            RegistrationConflict::RepeatedAlias { alias, name } => {
                let t = cat("alias `", alias.as_str());
                let t = cat(t.as_str(), "` is repeated for command `");
                let t = cat(t.as_str(), name.as_str());
                cat(t.as_str(), "`")
            },
        }
    }
}

/// The first problem with alias `k` onwards of a command named `name`.
pub open spec fn alias_conflict(
    defs: Seq<CommandDef>,
    name: Seq<char>,
    aliases: Seq<Seq<char>>,
    k: int,
) -> Option<ConflictView>
    decreases aliases.len() - k,
{
    if k < 0 || k >= aliases.len() {
        None
    } else {
        let a = aliases[k];
        if a == name {
            Some(ConflictView::AliasIsName { name })
        } else if find_name(defs, a, 0) is Some {
            Some(ConflictView::AliasIsCommand { alias: a, name })
        } else if alias_owner(defs, a, 0) matches Some(c) && defs[c].spec.name@ != name {
            Some(
                ConflictView::AliasIsOtherAlias {
                    alias: a,
                    name,
                    canonical: defs[alias_owner(defs, a, 0)->0].spec.name@,
                },
            )
        } else if exists|j: int| 0 <= j < k && aliases[j] == a {
            Some(ConflictView::RepeatedAlias { alias: a, name })
        } else {
            alias_conflict(defs, name, aliases, k + 1)
        }
    }
}

/// The aliases of a command spec, as character sequences.
pub open spec fn alias_views(spec: CommandSpec) -> Seq<Seq<char>> {
    spec.aliases@.map_values(|a: &'static str| a@)
}

/// The first problem with registering `spec`, if any.
pub open spec fn registration_problem(defs: Seq<CommandDef>, spec: CommandSpec) -> Option<ConflictView> {
    let name = spec.name@;
    match alias_owner(defs, name, 0) {
        Some(c) if defs[c].spec.name@ != name => Some(
            ConflictView::NameIsAlias { name, canonical: defs[c].spec.name@ },
        ),
        _ => alias_conflict(defs, name, alias_views(spec), 0),
    }
}

/// Registry of the commands available in the console, sorted by name.
pub struct ConsoleRegistry {
    commands: Vec<CommandDef>,
}

impl ConsoleRegistry {
    /// The registered commands, in name order.
    pub closed spec fn defs(&self) -> Seq<CommandDef> {
        self.commands@
    }

    #[verifier::type_invariant]
    closed spec fn inv(&self) -> bool {
        names_sorted(self.commands@)
    }

    /// An empty registry.
    pub fn new() -> (r: Self)
        ensures
            r.defs().len() == 0,
    {
        ConsoleRegistry { commands: Vec::new() }
    }

    /// The number of registered commands; names are strictly increasing.
    pub fn len(&self) -> (r: usize)
        ensures
            r == self.defs().len(),
            names_sorted(self.defs()),
    {
        proof {
            use_type_invariant(self);
        }
        self.commands.len()
    }

    /// The command at `index`, in name order.
    pub fn def_at(&self, index: usize) -> (r: &CommandDef)
        requires
            index < self.defs().len(),
        ensures
            *r == self.defs()[index as int],
    {
        &self.commands[index]
    }

    fn find_name_from(&self, name: &[char], from: usize) -> (r: Option<usize>)
        requires
            from <= self.defs().len(),
        ensures
            r matches Some(k) ==> find_name(self.defs(), name@, from as int) == Some(k as int),
            r is None ==> find_name(self.defs(), name@, from as int) is None,
    {
        let mut i = from;
        while i < self.commands.len()
            invariant
                from <= i <= self.commands@.len(),
                find_name(self.defs(), name@, from as int) == find_name(self.defs(), name@, i as int),
            decreases self.commands@.len() - i,
        {
            let n = chars_of(self.commands[i].spec.name.as_str());
            if chars_eq(n.as_slice(), name) {
                return Some(i);
            }
            i = i + 1;
        }
        None
    }

    fn def_has_alias(d: &CommandDef, a: &str) -> (r: bool)
        ensures
            r == has_alias(*d, a@),
    {
        let mut k: usize = 0;
        while k < d.spec.aliases.len()
            invariant
                0 <= k <= d.spec.aliases@.len(),
                forall|j: int| 0 <= j < k ==> (#[trigger] d.spec.aliases@[j])@ != a@,
            decreases d.spec.aliases@.len() - k,
        {
            if str_eq(d.spec.aliases[k], a) {
                return true;
            }
            k = k + 1;
        }
        false
    }

    fn alias_owner_from(&self, a: &str, from: usize) -> (r: Option<usize>)
        requires
            from <= self.defs().len(),
        ensures
            r matches Some(k) ==> alias_owner(self.defs(), a@, from as int) == Some(k as int),
            r is None ==> alias_owner(self.defs(), a@, from as int) is None,
    {
        let mut i = from;
        while i < self.commands.len()
            invariant
                from <= i <= self.commands@.len(),
                alias_owner(self.defs(), a@, from as int) == alias_owner(self.defs(), a@, i as int),
            decreases self.commands@.len() - i,
        {
            if Self::def_has_alias(&self.commands[i], a) {
                return Some(i);
            }
            i = i + 1;
        }
        None
    }

    fn resolve_index(&self, name: &str) -> (r: Option<usize>)
        ensures
            r matches Some(k) ==> resolve(self.defs(), name@) == Some(k as int),
            r is None ==> resolve(self.defs(), name@) is None,
            r matches Some(i) ==> i < self.defs().len(),
    {
        proof {
            lemma_find_name(self.defs(), name@, 0);
            lemma_alias_owner(self.defs(), name@, 0);
        }
        let cs = chars_of(name);
        match self.find_name_from(cs.as_slice(), 0) {
            Some(i) => Some(i),
            None => self.alias_owner_from(name, 0),
        }
    }

    /// The canonical name of the command that `name` names exactly, by its
    /// own name or by a registered alias.
    pub fn resolve_name(&self, name: &str) -> (r: Option<&str>)
        ensures
            match resolve(self.defs(), name@) {
                Some(i) => r matches Some(n) && n@ == self.defs()[i].spec.name@,
                None => r is None,
            },
    {
        match self.resolve_index(name) {
            Some(i) => Some(self.commands[i].spec.name.as_str()),
            None => None,
        }
    }

    /// The command that `name` names exactly, by its own name or by a
    /// registered alias.
    pub fn get(&self, name: &str) -> (r: Option<&CommandDef>)
        ensures
            match resolve(self.defs(), name@) {
                Some(i) => r matches Some(d) && *d == self.defs()[i],
                None => r is None,
            },
    {
        match self.resolve_index(name) {
            Some(i) => Some(&self.commands[i]),
            None => None,
        }
    }

    /// Whether `name` names a command exactly or is a registered alias.
    pub fn contains(&self, name: &str) -> (r: bool)
        ensures
            r == resolve(self.defs(), name@) is Some,
    {
        self.resolve_index(name).is_some()
    }

    fn def_matches_ignoring_case(d: &CommandDef, name: &str) -> (r: bool)
        ensures
            r == matches_ignoring_case(*d, name@),
    {
        if str_eq_ignore_case(d.spec.name.as_str(), name) {
            return true;
        }
        let mut k: usize = 0;
        while k < d.spec.aliases.len()
            invariant
                0 <= k <= d.spec.aliases@.len(),
                !eq_ignore_case(d.spec.name@, name@),
                forall|j: int| 0 <= j < k ==> !eq_ignore_case((#[trigger] d.spec.aliases@[j])@, name@),
            decreases d.spec.aliases@.len() - k,
        {
            if str_eq_ignore_case(d.spec.aliases[k], name) {
                return true;
            }
            k = k + 1;
        }
        false
    }

    fn first_case_match_from(&self, name: &str, from: usize) -> (r: Option<usize>)
        requires
            from <= self.defs().len(),
        ensures
            r matches Some(k) ==> first_case_match(self.defs(), name@, from as int) == Some(k as int),
            r is None ==> first_case_match(self.defs(), name@, from as int) is None,
    {
        let mut i = from;
        while i < self.commands.len()
            invariant
                from <= i <= self.commands@.len(),
                first_case_match(self.defs(), name@, from as int) == first_case_match(
                    self.defs(),
                    name@,
                    i as int,
                ),
            decreases self.commands@.len() - i,
        {
            if Self::def_matches_ignoring_case(&self.commands[i], name) {
                return Some(i);
            }
            i = i + 1;
        }
        None
    }

    /// Finds a command for completion: the exact command, else the only one
    /// whose name or alias matches ignoring ASCII case.
    pub fn search(&self, name: &str) -> (r: Option<&CommandDef>)
        ensures
            match search_result(self.defs(), name@) {
                Some(i) => r matches Some(d) && *d == self.defs()[i],
                None => r is None,
            },
    {
        if let Some(i) = self.resolve_index(name) {
            return Some(&self.commands[i]);
        }
        proof {
            lemma_first_case_match(self.defs(), name@, 0);
        }
        match self.first_case_match_from(name, 0) {
            Some(i) => {
                assert(i < self.commands.len());
                if self.first_case_match_from(name, i + 1).is_none() {
                    Some(&self.commands[i])
                } else {
                    None
                }
            },
            None => None,
        }
    }

    /// The canonical command names, in sorted order.
    pub fn command_names(&self) -> (r: Vec<String>)
        ensures
            r@.len() == self.defs().len(),
            forall|i: int| 0 <= i < r@.len() ==> (#[trigger] r@[i])@ == self.defs()[i].spec.name@,
    {
        let mut out: Vec<String> = Vec::new();
        let mut i: usize = 0;
        while i < self.commands.len()
            invariant
                0 <= i <= self.commands@.len(),
                out@.len() == i,
                forall|j: int| 0 <= j < i ==> (#[trigger] out@[j])@ == self.defs()[j].spec.name@,
            decreases self.commands@.len() - i,
        {
            out.push(self.commands[i].spec.name.clone());
            i = i + 1;
        }
        out
    }

    /// The position of the first command whose name does not sort before `n`.
    fn position(&self, n: &[char]) -> (r: usize)
        ensures
            r <= self.defs().len(),
            forall|j: int| 0 <= j < r ==> lex_lt(#[trigger] self.defs()[j].spec.name@, n@),
            r < self.defs().len() ==> !lex_lt(self.defs()[r as int].spec.name@, n@),
    {
        let mut i: usize = 0;
        while i < self.commands.len()
            invariant
                0 <= i <= self.commands@.len(),
                forall|j: int| 0 <= j < i ==> lex_lt(#[trigger] self.defs()[j].spec.name@, n@),
            decreases self.commands@.len() - i,
        {
            let k = chars_of(self.commands[i].spec.name.as_str());
            if !chars_lex_lt(k.as_slice(), n) {
                return i;
            }
            i = i + 1;
        }
        i
    }

    /// The first problem with registering `spec` (see [`registration_problem`]).
    pub fn registration_conflict(&self, spec: &CommandSpec) -> (r: Option<RegistrationConflict>)
        ensures
            r matches Some(c) ==> registration_problem(self.defs(), *spec) == Some(c@),
            r is None ==> registration_problem(self.defs(), *spec) is None,
    {
        let ghost defs = self.defs();
        let ghost nv = spec.name@;
        let ghost av = alias_views(*spec);
        let name = spec.name.as_str();
        proof {
            lemma_alias_owner(defs, nv, 0);
        }
        if let Some(c) = self.alias_owner_from(name, 0) {
            if !str_eq(self.commands[c].spec.name.as_str(), name) {
                return Some(
                    RegistrationConflict::NameIsAlias {
                        name: spec.name.clone(),
                        canonical: self.commands[c].spec.name.clone(),
                    },
                );
            }
        }
        let mut k: usize = 0;
        while k < spec.aliases.len()
            invariant
                0 <= k <= spec.aliases@.len(),
                defs == self.defs(),
                nv == spec.name@,
                name@ == nv,
                av == alias_views(*spec),
                av.len() == spec.aliases@.len(),
                registration_problem(defs, *spec) == alias_conflict(defs, nv, av, k as int),
            decreases spec.aliases@.len() - k,
        {
            let a = spec.aliases[k];
            assert(av[k as int] == a@);
            if str_eq(a, name) {
                assert(av[k as int] == nv);
                assert(alias_conflict(defs, nv, av, k as int) == Some(ConflictView::AliasIsName { name: nv }));
                let r = RegistrationConflict::AliasIsName { name: spec.name.clone() };
                assert(r@ == ConflictView::AliasIsName { name: nv });
                return Some(r);
            }
            let ac = chars_of(a);
            if self.find_name_from(ac.as_slice(), 0).is_some() {
                assert(alias_conflict(defs, nv, av, k as int) == Some(
                    ConflictView::AliasIsCommand { alias: a@, name: nv },
                ));
                return Some(
                    RegistrationConflict::AliasIsCommand {
                        alias: crate::text::copy_str(a),
                        name: spec.name.clone(),
                    },
                );
            }
            proof {
                lemma_alias_owner(defs, a@, 0);
            }
            if let Some(c) = self.alias_owner_from(a, 0) {
                if !str_eq(self.commands[c].spec.name.as_str(), name) {
                    return Some(
                        RegistrationConflict::AliasIsOtherAlias {
                            alias: crate::text::copy_str(a),
                            name: spec.name.clone(),
                            canonical: self.commands[c].spec.name.clone(),
                        },
                    );
                }
            }
            let mut j: usize = 0;
            while j < k
                invariant
                    0 <= j <= k < spec.aliases@.len(),
                    defs == self.defs(),
                    nv == spec.name@,
                    a@ != nv,
                    find_name(defs, a@, 0) is None,
                    !(alias_owner(defs, a@, 0) matches Some(c) && defs[c].spec.name@ != nv),
                    registration_problem(defs, *spec) == alias_conflict(defs, nv, av, k as int),
                    av == alias_views(*spec),
                    av.len() == spec.aliases@.len(),
                    a@ == av[k as int],
                    forall|i: int| 0 <= i < j ==> av[i] != a@,
                decreases k - j,
            {
                assert(av[j as int] == spec.aliases@[j as int]@);
                if str_eq(spec.aliases[j], a) {
                    assert(av[j as int] == a@);
                    assert(alias_conflict(defs, nv, av, k as int) == Some(
                        ConflictView::RepeatedAlias { alias: a@, name: nv },
                    ));
                    return Some(
                        RegistrationConflict::RepeatedAlias {
                            alias: crate::text::copy_str(a),
                            name: spec.name.clone(),
                        },
                    );
                }
                j = j + 1;
            }
            k = k + 1;
        }
        None
    }

    /// Registers `spec` with its handles, replacing any command of the same
    /// name (and so its aliases). Fails, changing nothing, when the name or an
    /// alias collides (see [`registration_problem`]).
    pub fn register(&mut self, spec: CommandSpec, executor: u64, completer: Option<u64>) -> (r:
        Result<(), RegistrationConflict>)
        ensures
            match registration_problem(old(self).defs(), spec) {
                Some(c) => r matches Err(e) && e@ == c && final(self).defs() == old(self).defs(),
                None => r is Ok && match find_name(old(self).defs(), spec.name@, 0) {
                    Some(i) => final(self).defs() == old(self).defs().update(
                        i,
                        CommandDef { spec, executor, completer },
                    ),
                    None => exists|p: int|
                        0 <= p <= old(self).defs().len() && final(self).defs() == old(
                            self,
                        ).defs().insert(p, CommandDef { spec, executor, completer }) && (forall|
                            j: int,
                        |
                            0 <= j < p ==> lex_lt(
                                #[trigger] old(self).defs()[j].spec.name@,
                                spec.name@,
                            )) && (forall|j: int|
                            p <= j < old(self).defs().len() ==> lex_lt(
                                spec.name@,
                                #[trigger] old(self).defs()[j].spec.name@,
                            )),
                },
            },
    {
        if let Some(c) = self.registration_conflict(&spec) {
            return Err(c);
        }
        proof {
            use_type_invariant(&*self);
        }
        let ghost old_defs = self.defs();
        let n = chars_of(spec.name.as_str());
        let p = self.position(n.as_slice());
        proof {
            lemma_find_name(old_defs, n@, 0);
        }
        let d = CommandDef { spec, executor, completer };
        if p < self.commands.len() {
            let k = chars_of(self.commands[p].spec.name.as_str());
            if chars_eq(k.as_slice(), n.as_slice()) {
                proof {
                    assert(find_name(old_defs, n@, 0) == Some(p as int)) by {
                        if find_name(old_defs, n@, 0) != Some(p as int) {
                            let i = find_name(old_defs, n@, 0)->0;
                            if i < p {
                                lemma_lex_irreflexive(n@);
                            } else {
                                lemma_lex_irreflexive(n@);
                            }
                        }
                    }
                }
                let mut commands: Vec<CommandDef> = Vec::new();
                std::mem::swap(&mut commands, &mut self.commands);
                commands.set(p, d);
                proof {
                    assert forall|i: int, j: int|
                        0 <= i < j < commands@.len() implies lex_lt(
                        #[trigger] commands@[i].spec.name@,
                        #[trigger] commands@[j].spec.name@,
                    ) by {
                        assert(commands@[i].spec.name@ == old_defs[i].spec.name@);
                        assert(commands@[j].spec.name@ == old_defs[j].spec.name@);
                    }
                }
                self.commands = commands;
                return Ok(());
            }
        }
        proof {
            assert(find_name(old_defs, n@, 0) is None) by {
                if find_name(old_defs, n@, 0) is Some {
                    let i = find_name(old_defs, n@, 0)->0;
                    if i < p {
                        lemma_lex_irreflexive(n@);
                    } else if i > p {
                        assert(lex_lt(old_defs[p as int].spec.name@, old_defs[i].spec.name@));
                        lemma_lex_total(old_defs[p as int].spec.name@, n@);
                    }
                }
            }
            assert forall|j: int| p <= j < old_defs.len() implies lex_lt(
                n@,
                #[trigger] old_defs[j].spec.name@,
            ) by {
                lemma_lex_total(old_defs[p as int].spec.name@, n@);
                if j > p {
                    assert(lex_lt(old_defs[p as int].spec.name@, old_defs[j].spec.name@));
                    lemma_lex_trans(n@, old_defs[p as int].spec.name@, old_defs[j].spec.name@);
                }
            }
        }
        let mut commands: Vec<CommandDef> = Vec::new();
        std::mem::swap(&mut commands, &mut self.commands);
        commands.insert(p, d);
        proof {
            assert forall|i: int, j: int|
                0 <= i < j < commands@.len() implies lex_lt(
                #[trigger] commands@[i].spec.name@,
                #[trigger] commands@[j].spec.name@,
            ) by {
                if j < p {
                    assert(commands@[i] == old_defs[i] && commands@[j] == old_defs[j]);
                } else if j == p {
                    assert(commands@[i] == old_defs[i]);
                } else if i < p {
                    assert(commands@[i] == old_defs[i] && commands@[j] == old_defs[j - 1]);
                    lemma_lex_trans(old_defs[i].spec.name@, n@, old_defs[j - 1].spec.name@);
                } else if i == p {
                    assert(commands@[j] == old_defs[j - 1]);
                } else {
                    assert(commands@[i] == old_defs[i - 1] && commands@[j] == old_defs[j - 1]);
                }
            }
        }
        self.commands = commands;
        Ok(())
    }
}

/// In a registry (names strictly increasing), a command is found by its own
/// name, whatever aliases other commands have.
pub proof fn law_registered_name_resolves(defs: Seq<CommandDef>, i: int)
    requires
        names_sorted(defs),
        0 <= i < defs.len(),
    ensures
        resolve(defs, defs[i].spec.name@) == Some(i),
{
    let n = defs[i].spec.name@;
    lemma_find_name(defs, n, 0);
    match find_name(defs, n, 0) {
        Some(j) => {
            if j != i {
                if j < i {
                    assert(lex_lt(defs[j].spec.name@, defs[i].spec.name@));
                } else {
                    assert(lex_lt(defs[i].spec.name@, defs[j].spec.name@));
                }
                lemma_lex_irreflexive(n);
            }
        },
        None => {
            assert(defs[i].spec.name@ == n);
        },
    }
}

} // verus!
