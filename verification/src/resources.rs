//! The built-in `res` command over the fields of resources an application
//! exposes: naming the properties, finding them, checking a requested change
//! and completing its arguments. Reading and writing the fields themselves
//! is left to the host, which hands the outcome back.

use crate::args::{Args, ArgsView};
use crate::buffer::{result_lines, ConsoleLevel, ConsoleResult};
use crate::commands::{error, info};
use crate::completion::{plain_item, static_completion_items};
use crate::model::{CompletionItem, CompletionRequest, ItemView, RequestView};
use crate::table::{chars_lex_lt, lemma_lex_asym, lemma_lex_irreflexive, lemma_lex_total, lemma_lex_trans, lex_lt};
use crate::text::{
    cat, chars_eq, chars_of, copy_str, eq_ignore_case, lower_seq, str_eq, str_eq_ignore_case,
    to_ascii_lowercase, trim, trim_str,
};
use vstd::prelude::*;

verus! {

broadcast use vstd::string::group_string_axioms;

/// Per-field console options: a name and help overriding the inferred ones,
/// and whether the field is read-only.
#[derive(Debug, Default)]
pub struct ConsoleProperty {
    name: Option<String>,
    help: Option<String>,
    readonly: bool,
}

/// The model of a [`ConsoleProperty`].
pub struct PropertyOptionsView {
    pub name: Option<Seq<char>>,
    pub help: Option<Seq<char>>,
    pub readonly: bool,
}

/// The view of an optional string.
pub open spec fn opt_view(o: Option<String>) -> Option<Seq<char>> {
    match o {
        Some(s) => Some(s@),
        None => None,
    }
}

fn copy_opt(o: &Option<String>) -> (r: Option<String>)
    ensures
        opt_view(r) == opt_view(*o),
{
    match o {
        Some(s) => Some(copy_str(s.as_str())),
        None => None,
    }
}

impl View for ConsoleProperty {
    type V = PropertyOptionsView;

    closed spec fn view(&self) -> PropertyOptionsView {
        PropertyOptionsView { name: opt_view(self.name), help: opt_view(self.help), readonly: self.readonly }
    }
}

impl Clone for ConsoleProperty {
    fn clone(&self) -> (r: Self)
        ensures
            r@ == self@,
    {
        ConsoleProperty { name: copy_opt(&self.name), help: copy_opt(&self.help), readonly: self.readonly }
    }
}

impl ConsoleProperty {
    /// Options without any override.
    pub fn new() -> (r: Self)
        ensures
            r@ == (PropertyOptionsView { name: None, help: None, readonly: false }),
    {
        ConsoleProperty { name: None, help: None, readonly: false }
    }

    /// Options that keep the field from being changed through the console.
    pub fn readonly() -> (r: Self)
        ensures
            r@ == (PropertyOptionsView { name: None, help: None, readonly: true }),
    {
        ConsoleProperty { name: None, help: None, readonly: true }
    }

    /// Overrides the field's part of its property name.
    pub fn with_name(self, name: &str) -> (r: Self)
        ensures
            r@ == (PropertyOptionsView { name: Some(name@), ..self@ }),
    {
        ConsoleProperty { name: Some(copy_str(name)), ..self }
    }

    /// Overrides the help taken from the field's documentation.
    pub fn with_help(self, help: &str) -> (r: Self)
        ensures
            r@ == (PropertyOptionsView { help: Some(help@), ..self@ }),
    {
        ConsoleProperty { help: Some(copy_str(help)), ..self }
    }

    /// Makes the field read-only.
    pub fn with_readonly(self) -> (r: Self)
        ensures
            r@ == (PropertyOptionsView { readonly: true, ..self@ }),
    {
        ConsoleProperty { readonly: true, ..self }
    }

    /// The name override.
    pub fn name(&self) -> (r: Option<&str>)
        ensures
            match r {
                Some(s) => self@.name == Some(s@),
                None => self@.name is None,
            },
    {
        match &self.name {
            Some(s) => Some(s.as_str()),
            None => None,
        }
    }

    /// The help override.
    pub fn help(&self) -> (r: Option<&str>)
        ensures
            match r {
                Some(s) => self@.help == Some(s@),
                None => self@.help is None,
            },
    {
        match &self.help {
            Some(s) => Some(s.as_str()),
            None => None,
        }
    }

    /// Whether the field is read-only.
    pub fn is_readonly(&self) -> (r: bool)
        ensures
            r == self@.readonly,
    {
        self.readonly
    }
}

/// What values a property holds, as far as the commands care.
#[derive(Debug, Clone, Copy, PartialEq, Eq, Structural)]
pub enum PropertyKind {
    /// `true` or `false`: can be toggled.
    Boolean,
    /// A number: can be added to and subtracted from.
    Numeric,
    /// Anything else that parses from text.
    Other,
}

/// A reflected field of a resource, as the host describes it.
#[derive(Debug)]
pub struct FieldInfo {
    /// The field's name.
    pub name: String,
    /// The console options attached to the field.
    pub property: Option<ConsoleProperty>,
    /// The field's documentation.
    pub docs: Option<String>,
    /// How its value is handled, or `None` when the console cannot handle it.
    pub kind: Option<PropertyKind>,
}

/// The model of a [`FieldInfo`].
pub struct FieldView {
    pub name: Seq<char>,
    pub property: Option<PropertyOptionsView>,
    pub docs: Option<Seq<char>>,
    pub kind: Option<PropertyKind>,
}

impl View for FieldInfo {
    type V = FieldView;

    open spec fn view(&self) -> FieldView {
        FieldView {
            name: self.name@,
            property: match self.property {
                Some(p) => Some(p@),
                None => None,
            },
            docs: opt_view(self.docs),
            kind: self.kind,
        }
    }
}

/// A resource field exposed as a console property.
#[derive(Debug)]
pub struct PropertyEntry {
    /// The property's console name.
    pub name: String,
    /// The resource type's name without its module path.
    pub short_path: String,
    /// The resource type's full path.
    pub type_path: String,
    /// The field's part of the console name.
    pub console_field: String,
    /// The reflected field's own name.
    pub field_name: String,
    /// The help shown with the property.
    pub help: String,
    /// How its value is handled.
    pub kind: PropertyKind,
    /// Whether it cannot be changed through the console.
    pub readonly: bool,
}

/// The model of a [`PropertyEntry`].
pub struct PropertyView {
    pub name: Seq<char>,
    pub short_path: Seq<char>,
    pub type_path: Seq<char>,
    pub console_field: Seq<char>,
    pub field_name: Seq<char>,
    pub help: Seq<char>,
    pub kind: PropertyKind,
    pub readonly: bool,
}

impl View for PropertyEntry {
    type V = PropertyView;

    open spec fn view(&self) -> PropertyView {
        PropertyView {
            name: self.name@,
            short_path: self.short_path@,
            type_path: self.type_path@,
            console_field: self.console_field@,
            field_name: self.field_name@,
            help: self.help@,
            kind: self.kind,
            readonly: self.readonly,
        }
    }
}

/// Why a resource could not be exposed.
#[derive(Debug, Clone, Copy, PartialEq, Eq, Structural)]
pub enum ResourceError {
    /// The resource has no field the console can handle.
    NoFields,
    /// A field's console name is empty.
    EmptyFieldName,
    /// A resource with the same full path is exposed already.
    AlreadyRegistered,
    /// Two properties would have the same name, ignoring ASCII case.
    DuplicateName,
}

/// The property of field `f` of the resource `short_path` / `type_path`, or
/// `None` when the console cannot handle the field. Its name is the short
/// path, a dot and the field's name (or its override); its help is the
/// override, else the trimmed documentation, else empty.
pub open spec fn field_property(short_path: Seq<char>, type_path: Seq<char>, f: FieldView) -> Option<
    PropertyView,
> {
    match f.kind {
        None => None,
        Some(kind) => {
            let field = match f.property {
                Some(p) => match p.name {
                    Some(n) => n,
                    None => f.name,
                },
                None => f.name,
            };
            let help = match f.property {
                Some(p) => match p.help {
                    Some(h) => h,
                    None => match f.docs {
                        Some(d) => trim(d),
                        None => Seq::empty(),
                    },
                },
                None => match f.docs {
                    Some(d) => trim(d),
                    None => Seq::empty(),
                },
            };
            let readonly = match f.property {
                Some(p) => p.readonly,
                None => false,
            };
            Some(
                PropertyView {
                    name: short_path + "."@ + field,
                    short_path,
                    type_path,
                    console_field: field,
                    field_name: f.name,
                    help,
                    kind,
                    readonly,
                },
            )
        },
    }
}

/// The properties of the fields `fs`, in field order, or `None` when a
/// handled field's console name is empty.
pub open spec fn field_properties(short_path: Seq<char>, type_path: Seq<char>, fs: Seq<FieldView>) -> Option<
    Seq<PropertyView>,
>
    decreases fs.len(),
{
    if fs.len() == 0 {
        Some(Seq::empty())
    } else {
        match field_properties(short_path, type_path, fs.drop_last()) {
            None => None,
            Some(prev) => match field_property(short_path, type_path, fs.last()) {
                None => Some(prev),
                Some(p) => if p.console_field.len() == 0 {
                    None
                } else {
                    Some(prev.push(p))
                },
            },
        }
    }
}

/// The help of a field: its override, else its trimmed documentation.
fn field_help(f: &FieldInfo) -> (r: String)
    ensures
        r@ == match f@.property {
            Some(p) => match p.help {
                Some(h) => h,
                None => match f@.docs {
                    Some(d) => trim(d),
                    None => Seq::<char>::empty(),
                },
            },
            None => match f@.docs {
                Some(d) => trim(d),
                None => Seq::<char>::empty(),
            },
        },
{
    if let Some(p) = &f.property {
        if let Some(h) = p.help() {
            return copy_str(h);
        }
    }
    match &f.docs {
        Some(d) => trim_str(d.as_str()),
        None => String::new(),
    }
}

/// The properties of a resource's fields (see [`field_properties`]).
pub fn describe_fields(short_path: &str, type_path: &str, fields: &Vec<FieldInfo>) -> (r: Result<
    Vec<PropertyEntry>,
    ResourceError,
>)
    ensures
        match field_properties(short_path@, type_path@, fields@.map_values(|f: FieldInfo| f@)) {
            Some(ps) => r matches Ok(v) && v@.map_values(|e: PropertyEntry| e@) == ps,
            None => r == Err::<Vec<PropertyEntry>, ResourceError>(ResourceError::EmptyFieldName),
        },
{
    let ghost fs = fields@.map_values(|f: FieldInfo| f@);
    let mut out: Vec<PropertyEntry> = Vec::new();
    let mut i: usize = 0;
    assert(fs.take(0) =~= Seq::<FieldView>::empty());
    assert(out@.map_values(|e: PropertyEntry| e@) =~= Seq::<PropertyView>::empty());
    while i < fields.len()
        invariant
            0 <= i <= fields@.len(),
            fs == fields@.map_values(|f: FieldInfo| f@),
            field_properties(short_path@, type_path@, fs.take(i as int)) == Some(
                out@.map_values(|e: PropertyEntry| e@),
            ),
        decreases fields@.len() - i,
    {
        let f = &fields[i];
        assert(fs.take(i + 1).drop_last() =~= fs.take(i as int));
        assert(fs.take(i + 1).last() == f@);
        match f.kind {
            None => {
                assert(field_property(short_path@, type_path@, f@) is None);
            },
            Some(kind) => {
                let field = match &f.property {
                    Some(p) => match p.name() {
                        Some(n) => copy_str(n),
                        None => copy_str(f.name.as_str()),
                    },
                    None => copy_str(f.name.as_str()),
                };
                proof {
                    reveal_strlit("");
                }
                if str_eq(field.as_str(), "") {
                    proof {
                        assert(field_property(short_path@, type_path@, f@) matches Some(p) && p.console_field
                            == field@);
                        assert(field_properties(short_path@, type_path@, fs.take(i + 1)) is None);
                        lemma_none_stays(short_path@, type_path@, fs, i as int + 1);
                    }
                    return Err(ResourceError::EmptyFieldName);
                }
                assert(""@ =~= Seq::<char>::empty());
                assert(field@.len() > 0) by {
                    if field@.len() == 0 {
                        assert(field@ =~= ""@);
                    }
                }
                let help = field_help(f);
                let readonly = match &f.property {
                    Some(p) => p.is_readonly(),
                    None => false,
                };
                let name = cat(short_path, ".");
                let name = cat(name.as_str(), field.as_str());
                let e = PropertyEntry {
                    name,
                    short_path: copy_str(short_path),
                    type_path: copy_str(type_path),
                    console_field: field,
                    field_name: copy_str(f.name.as_str()),
                    help,
                    kind,
                    readonly,
                };
                proof {
                    reveal_strlit(".");
                }
                assert(field_property(short_path@, type_path@, f@) == Some(e@));
                let ghost prev = out@.map_values(|e: PropertyEntry| e@);
                let ghost ev = e@;
                out.push(e);
                assert(out@.map_values(|e: PropertyEntry| e@) =~= prev.push(ev));
            },
        }
        i = i + 1;
    }
    assert(fs.take(fields@.len() as int) =~= fs);
    Ok(out)
}

proof fn lemma_none_stays(short_path: Seq<char>, type_path: Seq<char>, fs: Seq<FieldView>, n: int)
    requires
        0 < n <= fs.len(),
        field_properties(short_path, type_path, fs.take(n)) is None,
    ensures
        field_properties(short_path, type_path, fs) is None,
    decreases fs.len() - n,
{
    if n < fs.len() {
        assert(fs.take(n + 1).drop_last() =~= fs.take(n));
        lemma_none_stays(short_path, type_path, fs, n + 1);
    } else {
        assert(fs.take(n) =~= fs);
    }
}


impl PropertyEntry {
    /// A copy of this property.
    pub fn duplicate(&self) -> (r: PropertyEntry)
        ensures
            r@ == self@,
    {
        PropertyEntry {
            name: copy_str(self.name.as_str()),
            short_path: copy_str(self.short_path.as_str()),
            type_path: copy_str(self.type_path.as_str()),
            console_field: copy_str(self.console_field.as_str()),
            field_name: copy_str(self.field_name.as_str()),
            help: copy_str(self.help.as_str()),
            kind: self.kind,
            readonly: self.readonly,
        }
    }
}

/// The models of `v`.
pub open spec fn entry_views(v: Seq<PropertyEntry>) -> Seq<PropertyView> {
    v.map_values(|e: PropertyEntry| e@)
}

/// The key a property is found by: its name in ASCII lower case.
pub open spec fn prop_key(p: PropertyView) -> Seq<char> {
    lower_seq(p.name)
}

/// Properties in strictly increasing key order.
pub open spec fn keys_sorted(s: Seq<PropertyView>) -> bool {
    forall|i: int, j: int| 0 <= i < j < s.len() ==> lex_lt(prop_key(#[trigger] s[i]), prop_key(#[trigger] s[j]))
}

/// No two properties share a key.
pub open spec fn keys_distinct(s: Seq<PropertyView>) -> bool {
    forall|i: int, j: int| 0 <= i < j < s.len() ==> prop_key(#[trigger] s[i]) != prop_key(#[trigger] s[j])
}

/// Some property has key `k`.
pub open spec fn key_taken(s: Seq<PropertyView>, k: Seq<char>) -> bool {
    exists|i: int| 0 <= i < s.len() && prop_key(#[trigger] s[i]) == k
}

/// Property `p` named by its resource's full path.
pub open spec fn full_named(p: PropertyView) -> PropertyView {
    PropertyView { name: p.type_path + "."@ + p.console_field, ..p }
}

/// Some property belongs to a resource whose short path is `short`,
/// ignoring ASCII case.
pub open spec fn short_collision(s: Seq<PropertyView>, short: Seq<char>) -> bool {
    exists|i: int| 0 <= i < s.len() && eq_ignore_case(#[trigger] s[i].short_path, short)
}

/// Some property belongs to the resource with full path `path`.
pub open spec fn resource_taken(s: Seq<PropertyView>, path: Seq<char>) -> bool {
    exists|i: int| 0 <= i < s.len() && #[trigger] s[i].type_path == path
}

/// The properties after adding `props` of a new resource to `old`: when the
/// new resource's short path is taken (ignoring ASCII case), the properties
/// of every resource with that short path, and the new ones, are named by
/// their full paths.
pub open spec fn registration_target(old: Seq<PropertyView>, props: Seq<PropertyView>) -> Seq<PropertyView> {
    let short = props[0].short_path;
    let c = short_collision(old, short);
    old.map_values(|p: PropertyView| renamed_existing(p, short, c)) + props.map_values(
        |p: PropertyView| renamed_new(p, c),
    )
}

/// An exposed property after a resource with short path `short` is added:
/// renamed to its full path when `collide` and its short path matches.
pub open spec fn renamed_existing(p: PropertyView, short: Seq<char>, collide: bool) -> PropertyView {
    if collide && eq_ignore_case(p.short_path, short) {
        full_named(p)
    } else {
        p
    }
}

/// A new property: renamed to its full path when `collide`.
pub open spec fn renamed_new(p: PropertyView, collide: bool) -> PropertyView {
    if collide {
        full_named(p)
    } else {
        p
    }
}

/// The property whose name is `name` ignoring ASCII case.
pub open spec fn lookup(rs: Seq<PropertyView>, name: Seq<char>) -> Option<int> {
    if key_taken(rs, lower_seq(name)) {
        Some(choose|i: int| 0 <= i < rs.len() && prop_key(#[trigger] rs[i]) == lower_seq(name))
    } else {
        None
    }
}

proof fn lemma_lookup(rs: Seq<PropertyView>, name: Seq<char>, i: int)
    requires
        keys_sorted(rs),
        0 <= i < rs.len(),
        prop_key(rs[i]) == lower_seq(name),
    ensures
        lookup(rs, name) == Some(i),
{
    let c = choose|c: int| 0 <= c < rs.len() && prop_key(#[trigger] rs[c]) == lower_seq(name);
    assert(0 <= c < rs.len() && prop_key(rs[c]) == lower_seq(name));
    if c < i {
        assert(lex_lt(prop_key(rs[c]), prop_key(rs[i])));
        lemma_lex_irreflexive(prop_key(rs[i]));
    } else if c > i {
        assert(lex_lt(prop_key(rs[i]), prop_key(rs[c])));
        lemma_lex_irreflexive(prop_key(rs[i]));
    }
}

/// The key of a property, computed.
fn key_of(e: &PropertyEntry) -> (r: Vec<char>)
    ensures
        r@ == prop_key(e@),
{
    let k = to_ascii_lowercase(e.name.as_str());
    chars_of(k.as_str())
}

/// Inserts `e` in key order, unless its key is taken.
fn insert_sorted(v: &mut Vec<PropertyEntry>, e: PropertyEntry) -> (r: Option<usize>)
    requires
        keys_sorted(old(v)@.map_values(|x: PropertyEntry| x@)),
    ensures
        keys_sorted(final(v)@.map_values(|x: PropertyEntry| x@)),
        r is Some == !key_taken(old(v)@.map_values(|x: PropertyEntry| x@), prop_key(e@)),
        r matches Some(p) ==> p <= old(v)@.len() && final(v)@.map_values(|x: PropertyEntry| x@) == old(
            v,
        )@.map_values(|x: PropertyEntry| x@).insert(p as int, e@),
        r is None ==> final(v)@ == old(v)@,
{
    let ghost s = v@.map_values(|x: PropertyEntry| x@);
    let kc = key_of(&e);
    let mut p: usize = 0;
    while p < v.len()
        invariant
            0 <= p <= v@.len(),
            s == v@.map_values(|x: PropertyEntry| x@),
            keys_sorted(s),
            kc@ == prop_key(e@),
            forall|i: int| 0 <= i < p ==> lex_lt(prop_key(#[trigger] s[i]), kc@),
        ensures
            0 <= p <= v@.len(),
            forall|i: int| 0 <= i < p ==> lex_lt(prop_key(#[trigger] s[i]), kc@),
            p < v@.len() ==> !lex_lt(prop_key(s[p as int]), kc@),
        decreases v@.len() - p,
    {
        let k = key_of(&v[p]);
        assert(s[p as int] == v@[p as int]@);
        if !chars_lex_lt(k.as_slice(), kc.as_slice()) {
            break;
        }
        p = p + 1;
    }
    if p < v.len() {
        let k = key_of(&v[p]);
        assert(s[p as int] == v@[p as int]@);
        if chars_eq(k.as_slice(), kc.as_slice()) {
            assert(prop_key(s[p as int]) == prop_key(e@));
            return None;
        }
        proof {
            lemma_lex_total(k@, kc@);
            assert(lex_lt(kc@, prop_key(s[p as int])));
        }
    }
    proof {
        assert forall|i: int| p <= i < s.len() implies lex_lt(kc@, prop_key(#[trigger] s[i])) by {
            if i > p {
                lemma_lex_trans(kc@, prop_key(s[p as int]), prop_key(s[i]));
            }
        }
        assert forall|i: int| 0 <= i < s.len() implies prop_key(#[trigger] s[i]) != prop_key(e@) by {
            if i < p {
                lemma_lex_irreflexive(kc@);
            } else {
                if i > p {
                    lemma_lex_trans(kc@, prop_key(s[p as int]), prop_key(s[i]));
                }
                lemma_lex_irreflexive(kc@);
            }
        }
    }
    v.insert(p, e);
    let ghost s2 = v@.map_values(|x: PropertyEntry| x@);
    assert(s2 =~= s.insert(p as int, e@));
    proof {
        assert forall|i: int, j: int| 0 <= i < j < s2.len() implies lex_lt(
            prop_key(#[trigger] s2[i]),
            prop_key(#[trigger] s2[j]),
        ) by {
            if j < p {
                assert(s2[i] == s[i] && s2[j] == s[j]);
            } else if j == p {
                assert(s2[i] == s[i]);
            } else if i == p {
                assert(s2[j] == s[j - 1]);
                assert(lex_lt(kc@, prop_key(s[j - 1])));
            } else if i < p {
                assert(lex_lt(kc@, prop_key(s[j - 1])));
                assert(s2[i] == s[i] && s2[j] == s[j - 1]);
                lemma_lex_trans(prop_key(s[i]), kc@, prop_key(s[j - 1]));
            } else {
                assert(s2[i] == s[i - 1] && s2[j] == s[j - 1]);
            }
        }
    }
    Some(p)
}


/// The property `e` named by its resource's full path.
fn use_full_path(e: PropertyEntry) -> (r: PropertyEntry)
    ensures
        r@ == full_named(e@),
{
    proof {
        reveal_strlit(".");
    }
    let name = cat(e.type_path.as_str(), ".");
    let name = cat(name.as_str(), e.console_field.as_str());
    PropertyEntry { name, ..e }
}

/// The resource fields exposed to the console, in key order.
pub struct ConsoleResources {
    entries: Vec<PropertyEntry>,
}

impl ConsoleResources {
    /// The exposed properties, in key order.
    pub closed spec fn views(&self) -> Seq<PropertyView> {
        self.entries@.map_values(|e: PropertyEntry| e@)
    }

    #[verifier::type_invariant]
    closed spec fn wf(&self) -> bool {
        keys_sorted(self.views())
    }

    /// No properties.
    pub fn new() -> (r: Self)
        ensures
            r.views() == Seq::<PropertyView>::empty(),
    {
        let r = ConsoleResources { entries: Vec::new() };
        assert(r.views() =~= Seq::<PropertyView>::empty());
        r
    }

    /// How many properties are exposed.
    pub fn len(&self) -> (r: usize)
        ensures
            r == self.views().len(),
    {
        self.entries.len()
    }

    /// Property `index`, in key order.
    pub fn entry(&self, index: usize) -> (r: &PropertyEntry)
        requires
            index < self.views().len(),
        ensures
            r@ == self.views()[index as int],
    {
        &self.entries[index]
    }

    /// The property whose name is `name`, ignoring ASCII case.
    pub fn get(&self, name: &str) -> (r: Option<usize>)
        ensures
            r matches Some(i) ==> i < self.views().len() && prop_key(self.views()[i as int]) == lower_seq(name@),
            r is None ==> !key_taken(self.views(), lower_seq(name@)),
            r matches Some(i) ==> lookup(self.views(), name@) == Some(i as int),
            r is None ==> lookup(self.views(), name@) is None,
    {
        proof {
            use_type_invariant(self);
        }
        let wanted = to_ascii_lowercase(name);
        let wc = chars_of(wanted.as_str());
        let mut i: usize = 0;
        while i < self.entries.len()
            invariant
                0 <= i <= self.entries@.len(),
                wc@ == lower_seq(name@),
                keys_sorted(self.views()),
                forall|j: int| 0 <= j < i ==> prop_key(#[trigger] self.views()[j]) != wc@,
            decreases self.entries@.len() - i,
        {
            let k = key_of(&self.entries[i]);
            assert(self.views()[i as int] == self.entries@[i as int]@);
            if chars_eq(k.as_slice(), wc.as_slice()) {
                proof {
                    lemma_lookup(self.views(), name@, i as int);
                }
                return Some(i);
            }
            i = i + 1;
        }
        None
    }

    /// Exposes the properties `props` of one resource (see
    /// [`registration_target`]). Refused, with nothing changed, when there
    /// are none, when a resource with the same full path is exposed already,
    /// or when two properties would share a name ignoring ASCII case.
    pub fn register(&mut self, props: Vec<PropertyEntry>) -> (r: Result<(), ResourceError>)
        ensures
            props@.len() == 0 ==> r == Err::<(), ResourceError>(ResourceError::NoFields)
                && final(self).views() == old(self).views(),
            props@.len() > 0 && resource_taken(old(self).views(), props@[0]@.type_path) ==> r == Err::<
                (),
                ResourceError,
            >(ResourceError::AlreadyRegistered) && final(self).views() == old(self).views(),
            props@.len() > 0 && !resource_taken(old(self).views(), props@[0]@.type_path) && !keys_distinct(
                registration_target(old(self).views(), props@.map_values(|e: PropertyEntry| e@)),
            ) ==> r == Err::<(), ResourceError>(ResourceError::DuplicateName) && final(self).views()
                == old(self).views(),
            props@.len() > 0 && !resource_taken(old(self).views(), props@[0]@.type_path) && keys_distinct(
                registration_target(old(self).views(), props@.map_values(|e: PropertyEntry| e@)),
            ) ==> {
                let t = registration_target(old(self).views(), props@.map_values(|e: PropertyEntry| e@));
                &&& r is Ok
                &&& final(self).views().len() == t.len()
                &&& forall|x: PropertyView| #[trigger] final(self).views().contains(x) <==> t.contains(x)
                &&& forall|x: PropertyView|
                    #[trigger] t.contains(x) ==> (lookup(final(self).views(), x.name) matches Some(i) && 0 <= i
                        < final(self).views().len() && final(self).views()[i] == x)
            },
    {
        proof {
            use_type_invariant(&*self);
        }
        let ghost old_views = self.views();
        if props.len() == 0 {
            return Err(ResourceError::NoFields);
        }
        let ghost pv = props@.map_values(|e: PropertyEntry| e@);
        assert(pv[0] == props@[0]@);
        let n = self.entries.len();
        let mut k: usize = 0;
        while k < n
            invariant
                0 <= k <= n,
                n == self.entries@.len(),
                old_views == self.views(),
                props@.len() > 0,
                forall|j: int| 0 <= j < k ==> #[trigger] old_views[j].type_path != props@[0]@.type_path,
            decreases n - k,
        {
            assert(old_views[k as int] == self.entries@[k as int]@);
            if str_eq(self.entries[k].type_path.as_str(), props[0].type_path.as_str()) {
                assert(old_views[k as int].type_path == props@[0]@.type_path);
                assert(resource_taken(old_views, props@[0]@.type_path));
                return Err(ResourceError::AlreadyRegistered);
            }
            k = k + 1;
        }
        assert(!resource_taken(old_views, props@[0]@.type_path));
        let short = props[0].short_path.as_str();
        let mut collide = false;
        let mut k: usize = 0;
        while k < n
            invariant
                0 <= k <= n,
                n == self.entries@.len(),
                old_views == self.views(),
                props@.len() > 0,
                short@ == props@[0]@.short_path,
                collide == exists|j: int| 0 <= j < k && eq_ignore_case(#[trigger] old_views[j].short_path, short@),
            decreases n - k,
        {
            assert(old_views[k as int] == self.entries@[k as int]@);
            if str_eq_ignore_case(self.entries[k].short_path.as_str(), short) {
                assert(eq_ignore_case(old_views[k as int].short_path, short@));
                collide = true;
            }
            k = k + 1;
        }
        assert(collide == short_collision(old_views, short@));
        let ghost t = registration_target(old_views, pv);
        assert(t.len() == n + props@.len());
        let mut target: Vec<PropertyEntry> = Vec::new();
        let mut k: usize = 0;
        assert(entry_views(target@) =~= t.take(0));
        while k < n
            invariant
                0 <= k <= n,
                n == self.entries@.len(),
                old_views == self.views(),
                props@.len() > 0,
                !resource_taken(old_views, props@[0]@.type_path),
                short@ == props@[0]@.short_path,
                pv[0] == props@[0]@,
                collide == short_collision(old_views, short@),
                pv == props@.map_values(|e: PropertyEntry| e@),
                t == registration_target(old_views, pv),
                t.len() == n + props@.len(),
                entry_views(target@) == t.take(k as int),
            decreases n - k,
        {
            let e = self.entries[k].duplicate();
            assert(old_views[k as int] == self.entries@[k as int]@);
            assert(t[k as int] == renamed_existing(old_views[k as int], short@, collide));
            let e = if collide && str_eq_ignore_case(e.short_path.as_str(), short) {
                use_full_path(e)
            } else {
                e
            };
            let ghost ev = e@;
            assert(t[k as int] == ev);
            let ghost before = entry_views(target@);
            target.push(e);
            assert(entry_views(target@) =~= before.push(ev));
            assert(entry_views(target@) =~= t.take(k + 1));
            k = k + 1;
        }
        let m = props.len();
        let mut k: usize = 0;
        while k < m
            invariant
                0 <= k <= m,
                m == props@.len(),
                n == old_views.len(),
                old_views == self.views(),
                !resource_taken(old_views, props@[0]@.type_path),
                collide == short_collision(old_views, props@[0]@.short_path),
                pv == props@.map_values(|e: PropertyEntry| e@),
                pv[0] == props@[0]@,
                t == registration_target(old_views, pv),
                t.len() == n + m,
                entry_views(target@) == t.take(n + k),
            decreases m - k,
        {
            let e = props[k].duplicate();
            assert(t[n + k] == renamed_new(pv[k as int], collide));
            let e = if collide {
                use_full_path(e)
            } else {
                e
            };
            let ghost ev = e@;
            assert(t[n + k] == ev);
            let ghost before = entry_views(target@);
            target.push(e);
            assert(entry_views(target@) =~= before.push(ev));
            assert(entry_views(target@) =~= t.take(n + k + 1));
            k = k + 1;
        }
        assert(t.take(n + m) =~= t);
        let total = target.len();
        let mut built: Vec<PropertyEntry> = Vec::new();
        let mut k: usize = 0;
        assert(entry_views(built@) =~= Seq::<PropertyView>::empty());
        assert(t.take(0) =~= Seq::<PropertyView>::empty());
        while k < total
            invariant
                0 <= k <= total,
                total == t.len(),
                old_views == self.views(),
                props@.len() > 0,
                !resource_taken(old_views, props@[0]@.type_path),
                pv == props@.map_values(|e: PropertyEntry| e@),
                t == registration_target(old_views, pv),
                entry_views(target@) == t,
                keys_sorted(entry_views(built@)),
                built@.len() == k,
                keys_distinct(t.take(k as int)),
                forall|x: PropertyView| #[trigger] entry_views(built@).contains(x) <==> t.take(k as int).contains(x),
                forall|kk: Seq<char>| key_taken(entry_views(built@), kk) <==> key_taken(t.take(k as int), kk),
            decreases total - k,
        {
            let e = target[k].duplicate();
            let ghost bv = entry_views(built@);
            let ghost ev = e@;
            assert(ev == t[k as int]);
            let ghost tk = t.take(k as int);
            let ghost tk1 = t.take(k + 1);
            assert(tk1 =~= tk.push(ev));
            match insert_sorted(&mut built, e) {
                None => {
                    proof {
                        assert(key_taken(tk, prop_key(ev)));
                        let j = choose|j: int| 0 <= j < tk.len() && prop_key(#[trigger] tk[j]) == prop_key(ev);
                        assert(t[j] == tk[j]);
                        assert(prop_key(t[j]) == prop_key(t[k as int]));
                    }
                    return Err(ResourceError::DuplicateName);
                },
                Some(p) => {
                    proof {
                        let b2 = entry_views(built@);
                        assert(b2 == bv.insert(p as int, ev));
                        assert forall|x: PropertyView| #[trigger] b2.contains(x) <==> tk1.contains(x) by {
                            if b2.contains(x) {
                                let i = choose|i: int| 0 <= i < b2.len() && b2[i] == x;
                                if i == p {
                                    assert(tk1[k as int] == x);
                                } else {
                                    let i0 = if i < p { i } else { i - 1 };
                                    assert(bv[i0] == x);
                                    assert(bv.contains(x));
                                    assert(tk.contains(x));
                                    let q = choose|q: int| 0 <= q < tk.len() && tk[q] == x;
                                    assert(tk1[q] == x);
                                }
                            }
                            if tk1.contains(x) {
                                let q = choose|q: int| 0 <= q < tk1.len() && tk1[q] == x;
                                if q < k {
                                    assert(tk[q] == x);
                                    assert(tk.contains(x));
                                    assert(bv.contains(x));
                                    let i = choose|i: int| 0 <= i < bv.len() && bv[i] == x;
                                    if i < p {
                                        assert(b2[i] == x);
                                    } else {
                                        assert(b2[i + 1] == x);
                                    }
                                } else {
                                    assert(b2[p as int] == x);
                                }
                            }
                        }
                        assert forall|kk: Seq<char>| key_taken(b2, kk) <==> key_taken(tk1, kk) by {
                            if key_taken(b2, kk) {
                                let i = choose|i: int| 0 <= i < b2.len() && prop_key(#[trigger] b2[i]) == kk;
                                assert(b2.contains(b2[i]));
                                assert(tk1.contains(b2[i]));
                                let q = choose|q: int| 0 <= q < tk1.len() && tk1[q] == b2[i];
                                assert(prop_key(tk1[q]) == kk);
                            }
                            if key_taken(tk1, kk) {
                                let q = choose|q: int| 0 <= q < tk1.len() && prop_key(#[trigger] tk1[q]) == kk;
                                assert(tk1.contains(tk1[q]));
                                assert(b2.contains(tk1[q]));
                                let i = choose|i: int| 0 <= i < b2.len() && b2[i] == tk1[q];
                                assert(prop_key(b2[i]) == kk);
                            }
                        }
                        assert forall|i: int, j: int| 0 <= i < j < tk1.len() implies prop_key(#[trigger] tk1[i])
                            != prop_key(#[trigger] tk1[j]) by {
                            if j < k {
                                assert(tk1[i] == tk[i] && tk1[j] == tk[j]);
                            } else {
                                assert(tk1[i] == tk[i]);
                                if prop_key(tk[i]) == prop_key(ev) {
                                    assert(key_taken(tk, prop_key(ev)));
                                }
                            }
                        }
                    }
                },
            }
            k = k + 1;
        }
        assert(t.take(total as int) =~= t);
        proof {
            let bv = entry_views(built@);
            assert forall|x: PropertyView| #[trigger] t.contains(x) implies (lookup(bv, x.name) matches Some(i)
                && 0 <= i < bv.len() && bv[i] == x) by {
                assert(bv.contains(x));
                let i = choose|i: int| 0 <= i < bv.len() && bv[i] == x;
                lemma_lookup(bv, x.name, i);
            }
        }
        *self = ConsoleResources { entries: built };
        Ok(())
    }
}

impl Default for ConsoleResources {
    fn default() -> (r: Self)
        ensures
            r.views() == Seq::<PropertyView>::empty(),
    {
        ConsoleResources::new()
    }
}


/// The general usage line of `res`.
pub open spec fn res_usage() -> Seq<char> {
    "Usage: res <get|set|add|sub|toggle> <property> [value]"@
}

/// What the `res` command does with its arguments.
pub enum ResPlan {
    /// Answer at once.
    Reply(ConsoleResult),
    /// Show the value of property `.0`.
    Show(usize),
    /// Parse `.1` and store it in property `.0`.
    Assign(usize, String),
    /// Add (or, when `.2`, subtract) the amount `.1` to property `.0`.
    Adjust(usize, String, bool),
    /// Flip the boolean property `.0`.
    Toggle(usize),
}

/// The model of a [`ResPlan`].
pub enum ResPlanView {
    Reply(Seq<(ConsoleLevel, Seq<char>)>),
    Show(int),
    Assign(int, Seq<char>),
    Adjust(int, Seq<char>, bool),
    Toggle(int),
}

impl View for ResPlan {
    type V = ResPlanView;

    open spec fn view(&self) -> ResPlanView {
        match self {
            ResPlan::Reply(r) => ResPlanView::Reply(result_lines(*r)),
            ResPlan::Show(i) => ResPlanView::Show(*i as int),
            ResPlan::Assign(i, v) => ResPlanView::Assign(*i as int, v@),
            ResPlan::Adjust(i, v, sub) => ResPlanView::Adjust(*i as int, v@, *sub),
            ResPlan::Toggle(i) => ResPlanView::Toggle(*i as int),
        }
    }
}

/// `res <get|set|add|sub|toggle> <property> [value]`: the operation matched
/// ignoring ASCII case, the property found by [`lookup`], and a change
/// refused up front for a read-only property or one of the wrong kind.
pub open spec fn res_plan(rs: Seq<PropertyView>, a: ArgsView) -> ResPlanView {
    let n = a.values.len();
    if n < 2 {
        ResPlanView::Reply(error(res_usage()))
    } else {
        let op = lower_seq(a.values[0]);
        let name = a.values[1];
        if op == "get"@ && n == 2 {
            match lookup(rs, name) {
                None => ResPlanView::Reply(error("Unknown property: "@ + name)),
                Some(i) => ResPlanView::Show(i),
            }
        } else if op == "set"@ && n == 3 {
            match lookup(rs, name) {
                None => ResPlanView::Reply(error("Invalid value for "@ + name + ": "@ + "Unknown property: "@ + name)),
                Some(i) => if rs[i].readonly {
                    ResPlanView::Reply(error("Invalid value for "@ + name + ": "@ + name + " is read-only"@))
                } else {
                    ResPlanView::Assign(i, a.values[2])
                },
            }
        } else if (op == "add"@ || op == "sub"@) && n == 3 {
            match lookup(rs, name) {
                None => ResPlanView::Reply(error("Invalid amount for "@ + name + ": "@ + "Unknown property: "@ + name)),
                Some(i) => if rs[i].kind != PropertyKind::Numeric {
                    ResPlanView::Reply(
                        error("Invalid amount for "@ + name + ": "@ + name + " is not a numeric property"@),
                    )
                } else if rs[i].readonly {
                    ResPlanView::Reply(error("Invalid amount for "@ + name + ": "@ + name + " is read-only"@))
                } else {
                    ResPlanView::Adjust(i, a.values[2], op == "sub"@)
                },
            }
        } else if op == "toggle"@ && n == 2 {
            match lookup(rs, name) {
                None => ResPlanView::Reply(error("Unknown property: "@ + name)),
                Some(i) => if rs[i].kind != PropertyKind::Boolean {
                    ResPlanView::Reply(error(name + " is not a boolean property"@))
                } else if rs[i].readonly {
                    ResPlanView::Reply(error(name + " is read-only"@))
                } else {
                    ResPlanView::Toggle(i)
                },
            }
        } else if op == "get"@ {
            ResPlanView::Reply(error("Usage: res get <property>"@))
        } else if op == "set"@ {
            ResPlanView::Reply(error("Usage: res set <property> <value>"@))
        } else if op == "add"@ || op == "sub"@ {
            ResPlanView::Reply(error("Usage: res "@ + a.values[0] + " <property> <amount>"@))
        } else if op == "toggle"@ {
            ResPlanView::Reply(error("Usage: res toggle <property>"@))
        } else {
            ResPlanView::Reply(error(res_usage()))
        }
    }
}

fn cat3(a: &str, b: &str, c: &str) -> (r: String)
    ensures
        r@ == a@ + b@ + c@,
{
    let t = cat(a, b);
    cat(t.as_str(), c)
}

/// The `res` command's decision (see [`res_plan`]).
pub fn plan_res_command(resources: &ConsoleResources, args: &Args) -> (r: ResPlan)
    ensures
        r@ == res_plan(resources.views(), args@),
        r matches ResPlan::Show(i) ==> i < resources.views().len(),
        r matches ResPlan::Assign(i, _) ==> i < resources.views().len(),
        r matches ResPlan::Adjust(i, _, _) ==> i < resources.views().len(),
        r matches ResPlan::Toggle(i) ==> i < resources.views().len(),
{
    let usage = "Usage: res <get|set|add|sub|toggle> <property> [value]";
    let operation = match args.get(0) {
        Some(op) => op,
        None => {
            return ResPlan::Reply(ConsoleResult::error(usage));
        },
    };
    let name = match args.get(1) {
        Some(name) => name,
        None => {
            return ResPlan::Reply(ConsoleResult::error(usage));
        },
    };
    let lowered = to_ascii_lowercase(operation);
    let op = lowered.as_str();
    let n = args.len();
    let is_get = str_eq(op, "get");
    let is_set = str_eq(op, "set");
    let is_adjust = str_eq(op, "add") || str_eq(op, "sub");
    let is_toggle = str_eq(op, "toggle");
    if is_get && n == 2 {
        return match resources.get(name) {
            None => ResPlan::Reply(ConsoleResult::error(cat("Unknown property: ", name).as_str())),
            Some(i) => ResPlan::Show(i),
        };
    }
    if is_set && n == 3 {
        let value = match args.get(2) {
            Some(v) => v,
            None => {
                return ResPlan::Reply(ConsoleResult::error(usage));
            },
        };
        let prefix = cat3("Invalid value for ", name, ": ");
        return match resources.get(name) {
            None => ResPlan::Reply(
                ConsoleResult::error(cat3(prefix.as_str(), "Unknown property: ", name).as_str()),
            ),
            Some(i) => if resources.entry(i).readonly {
                ResPlan::Reply(ConsoleResult::error(cat3(prefix.as_str(), name, " is read-only").as_str()))
            } else {
                ResPlan::Assign(i, copy_str(value))
            },
        };
    }
    if is_adjust && n == 3 {
        let amount = match args.get(2) {
            Some(v) => v,
            None => {
                return ResPlan::Reply(ConsoleResult::error(usage));
            },
        };
        let prefix = cat3("Invalid amount for ", name, ": ");
        return match resources.get(name) {
            None => ResPlan::Reply(
                ConsoleResult::error(cat3(prefix.as_str(), "Unknown property: ", name).as_str()),
            ),
            Some(i) => {
                let e = resources.entry(i);
                if e.kind != PropertyKind::Numeric {
                    ResPlan::Reply(
                        ConsoleResult::error(
                            cat3(prefix.as_str(), name, " is not a numeric property").as_str(),
                        ),
                    )
                } else if e.readonly {
                    ResPlan::Reply(ConsoleResult::error(cat3(prefix.as_str(), name, " is read-only").as_str()))
                } else {
                    ResPlan::Adjust(i, copy_str(amount), str_eq(op, "sub"))
                }
            },
        };
    }
    if is_toggle && n == 2 {
        return match resources.get(name) {
            None => ResPlan::Reply(ConsoleResult::error(cat("Unknown property: ", name).as_str())),
            Some(i) => {
                let e = resources.entry(i);
                if e.kind != PropertyKind::Boolean {
                    ResPlan::Reply(ConsoleResult::error(cat(name, " is not a boolean property").as_str()))
                } else if e.readonly {
                    ResPlan::Reply(ConsoleResult::error(cat(name, " is read-only").as_str()))
                } else {
                    ResPlan::Toggle(i)
                }
            },
        };
    }
    if is_get {
        return ResPlan::Reply(ConsoleResult::error("Usage: res get <property>"));
    }
    if is_set {
        return ResPlan::Reply(ConsoleResult::error("Usage: res set <property> <value>"));
    }
    if is_adjust {
        return ResPlan::Reply(
            ConsoleResult::error(cat3("Usage: res ", operation, " <property> <amount>").as_str()),
        );
    }
    if is_toggle {
        return ResPlan::Reply(ConsoleResult::error("Usage: res toggle <property>"));
    }
    ResPlan::Reply(ConsoleResult::error(usage))
}


/// The reply to `res get` once the value of property `index` was read:
/// `<name> = <value>`, then ` - <help>` when the property has help; or the
/// reason it could not be read.
pub fn res_value_reply(resources: &ConsoleResources, index: usize, name: &str, value: Result<&str, &str>) -> (r:
    ConsoleResult)
    requires
        index < resources.views().len(),
    ensures
        result_lines(r) == match value {
            Ok(v) => info(
                name@ + " = "@ + v@ + if resources.views()[index as int].help.len() == 0 {
                    Seq::<char>::empty()
                } else {
                    " - "@ + resources.views()[index as int].help
                },
            ),
            Err(e) => error(e@),
        },
{
    match value {
        Ok(v) => {
            let text = cat3(name, " = ", v);
            let help = resources.entry(index).help.as_str();
            proof {
                reveal_strlit("");
            }
            if str_eq(help, "") {
                assert(help@ =~= Seq::<char>::empty());
                assert(text@ + Seq::<char>::empty() =~= text@);
                ConsoleResult::info(text.as_str())
            } else {
                assert(help@.len() != 0) by {
                    if help@.len() == 0 {
                        assert(help@ =~= ""@);
                    }
                }
                let tail = cat(" - ", help);
                let full = cat(text.as_str(), tail.as_str());
                assert(full@ =~= text@ + (" - "@ + help@));
                ConsoleResult::info(full.as_str())
            }
        },
        Err(e) => ConsoleResult::error(e),
    }
}

/// The reply once a value was stored in property `name`: `<name> = <value>`,
/// or why it was refused.
pub fn res_assign_reply(name: &str, outcome: Result<&str, &str>) -> (r: ConsoleResult)
    ensures
        result_lines(r) == match outcome {
            Ok(v) => info(name@ + " = "@ + v@),
            Err(e) => error("Invalid value for "@ + name@ + ": "@ + e@),
        },
{
    match outcome {
        Ok(v) => ConsoleResult::info(cat3(name, " = ", v).as_str()),
        Err(e) => {
            let text = cat3("Invalid value for ", name, ": ");
            ConsoleResult::error(cat(text.as_str(), e).as_str())
        },
    }
}

/// The reply once property `name` was adjusted: `<name> = <value>`, or why
/// the amount was refused.
pub fn res_adjust_reply(name: &str, outcome: Result<&str, &str>) -> (r: ConsoleResult)
    ensures
        result_lines(r) == match outcome {
            Ok(v) => info(name@ + " = "@ + v@),
            Err(e) => error("Invalid amount for "@ + name@ + ": "@ + e@),
        },
{
    match outcome {
        Ok(v) => ConsoleResult::info(cat3(name, " = ", v).as_str()),
        Err(e) => {
            let text = cat3("Invalid amount for ", name, ": ");
            ConsoleResult::error(cat(text.as_str(), e).as_str())
        },
    }
}

/// A signed integer property adjusted by `amount`: its value plus the amount,
/// or minus it when `subtract` holds, when that lies in `min..=max`, the
/// range of the property's type; otherwise the error `result would overflow`.
pub fn adjusted_signed(value: i128, amount: i128, subtract: bool, min: i128, max: i128) -> (r: Result<
    i128,
    String,
>)
    ensures
        ({
            let v = if subtract {
                value - amount
            } else {
                value + amount
            };
            if min <= v <= max {
                r == Ok::<i128, String>(v as i128)
            } else {
                r matches Err(e) && e@ == "result would overflow"@
            }
        }),
{
    let sum = if subtract {
        value.checked_sub(amount)
    } else {
        value.checked_add(amount)
    };
    match sum {
        Some(v) => if min <= v && v <= max {
            Ok(v)
        } else {
            Err(copy_str("result would overflow"))
        },
        None => Err(copy_str("result would overflow")),
    }
}

/// An unsigned integer property adjusted by `amount`: its value plus the
/// amount, or minus it when `subtract` holds, when that lies in `0..=max`,
/// the range of the property's type; otherwise the error `result would
/// overflow`.
pub fn adjusted_unsigned(value: u128, amount: u128, subtract: bool, max: u128) -> (r: Result<u128, String>)
    ensures
        ({
            let v = if subtract {
                value - amount
            } else {
                value + amount
            };
            if 0 <= v <= max {
                r == Ok::<u128, String>(v as u128)
            } else {
                r matches Err(e) && e@ == "result would overflow"@
            }
        }),
{
    let sum = if subtract {
        value.checked_sub(amount)
    } else {
        value.checked_add(amount)
    };
    match sum {
        Some(v) => if v <= max {
            Ok(v)
        } else {
            Err(copy_str("result would overflow"))
        },
        None => Err(copy_str("result would overflow")),
    }
}

/// What toggling a boolean property does once its current value was read.
pub enum ToggleStep {
    /// Answer at once.
    Reply(ConsoleResult),
    /// Store this value.
    Write(&'static str),
}

/// The value a toggle stores: `false` for a current `true` and the other
/// way round (ignoring ASCII case); an error when the value could not be
/// read or is neither.
pub fn toggle_step(name: &str, current: Option<&str>) -> (r: ToggleStep)
    ensures
        match current {
            None => r matches ToggleStep::Reply(m) && result_lines(m) == error(
                "Unable to read property: "@ + name@,
            ),
            Some(v) => if lower_seq(v@) == "true"@ {
                r matches ToggleStep::Write(w) && w@ == "false"@
            } else if lower_seq(v@) == "false"@ {
                r matches ToggleStep::Write(w) && w@ == "true"@
            } else {
                r matches ToggleStep::Reply(m) && result_lines(m) == error(name@ + " is not a boolean property"@)
            },
        },
{
    match current {
        None => ToggleStep::Reply(ConsoleResult::error(cat("Unable to read property: ", name).as_str())),
        Some(v) => {
            let lowered = to_ascii_lowercase(v);
            if str_eq(lowered.as_str(), "true") {
                ToggleStep::Write("false")
            } else if str_eq(lowered.as_str(), "false") {
                ToggleStep::Write("true")
            } else {
                ToggleStep::Reply(ConsoleResult::error(cat(name, " is not a boolean property").as_str()))
            }
        },
    }
}

/// A boolean read from text: `true`, `1` or `on`, or `false`, `0` or `off`,
/// ignoring ASCII case.
pub open spec fn bool_value(input: Seq<char>) -> Option<bool> {
    let l = lower_seq(input);
    if l == "true"@ || l == "1"@ || l == "on"@ {
        Some(true)
    } else if l == "false"@ || l == "0"@ || l == "off"@ {
        Some(false)
    } else {
        None
    }
}

/// Reads a boolean property value (see [`bool_value`]).
pub fn parse_bool_value(input: &str) -> (r: Result<bool, String>)
    ensures
        match bool_value(input@) {
            Some(b) => r == Ok::<bool, String>(b),
            None => r matches Err(e) && e@ == "expected a boolean (true/false)"@,
        },
{
    let lowered = to_ascii_lowercase(input);
    let l = lowered.as_str();
    if str_eq(l, "true") || str_eq(l, "1") || str_eq(l, "on") {
        Ok(true)
    } else if str_eq(l, "false") || str_eq(l, "0") || str_eq(l, "off") {
        Ok(false)
    } else {
        Err(copy_str("expected a boolean (true/false)"))
    }
}

/// Whether property `p` is offered after operation `op`: writable booleans
/// after `toggle`, writable numbers after `add` or `sub`, writable ones
/// after `set`, any otherwise (each operation ignoring ASCII case).
pub open spec fn offered(op: Option<Seq<char>>, p: PropertyView) -> bool {
    match op {
        Some(o) => if eq_ignore_case(o, "toggle"@) {
            p.kind == PropertyKind::Boolean && !p.readonly
        } else if eq_ignore_case(o, "add"@) || eq_ignore_case(o, "sub"@) {
            p.kind == PropertyKind::Numeric && !p.readonly
        } else if eq_ignore_case(o, "set"@) {
            !p.readonly
        } else {
            true
        },
        None => true,
    }
}

/// The candidate for property `p`: its name, with its help or
/// `resource property` as detail.
pub open spec fn property_item(p: PropertyView) -> ItemView {
    plain_item(
        p.name,
        if p.help.len() == 0 {
            "resource property"@
        } else {
            p.help
        },
    )
}

/// The candidates for the properties of `rs` offered after `op`, in key
/// order.
pub open spec fn property_items(rs: Seq<PropertyView>, op: Option<Seq<char>>) -> Seq<ItemView>
    decreases rs.len(),
{
    if rs.len() == 0 {
        Seq::empty()
    } else {
        let prev = property_items(rs.drop_last(), op);
        if offered(op, rs.last()) {
            prev.push(property_item(rs.last()))
        } else {
            prev
        }
    }
}

/// The candidates for argument `req.argument_index` of `res`: the five
/// operations; the properties offered after the operation typed; or, after
/// `set` of a writable boolean property, `true` and `false`.
pub open spec fn res_completions(req: RequestView, rs: Seq<PropertyView>) -> Seq<ItemView> {
    let toks = req.parsed.tokens;
    if req.argument_index == 0 {
        seq![
            plain_item("add"@, "Adds to a numeric resource"@),
            plain_item("get"@, "Shows a resource value"@),
            plain_item("set"@, "Sets a resource value"@),
            plain_item("sub"@, "Subtracts from a numeric resource"@),
            plain_item("toggle"@, "Toggles a boolean resource"@),
        ]
    } else if req.argument_index == 1 {
        property_items(
            rs,
            if toks.len() > 1 {
                Some(toks[1].value)
            } else {
                None
            },
        )
    } else if req.argument_index == 2 && toks.len() > 2 && eq_ignore_case(toks[1].value, "set"@) {
        match lookup(rs, toks[2].value) {
            Some(i) => if rs[i].kind == PropertyKind::Boolean && !rs[i].readonly {
                seq![plain_item("true"@, Seq::empty()), plain_item("false"@, Seq::empty())]
            } else {
                Seq::empty()
            },
            None => Seq::empty(),
        }
    } else {
        Seq::empty()
    }
}

fn is_offered(op: Option<&str>, e: &PropertyEntry) -> (r: bool)
    ensures
        r == offered(
            match op {
                Some(o) => Some(o@),
                None => None,
            },
            e@,
        ),
{
    match op {
        Some(o) => if str_eq_ignore_case(o, "toggle") {
            e.kind == PropertyKind::Boolean && !e.readonly
        } else if str_eq_ignore_case(o, "add") || str_eq_ignore_case(o, "sub") {
            e.kind == PropertyKind::Numeric && !e.readonly
        } else if str_eq_ignore_case(o, "set") {
            !e.readonly
        } else {
            true
        },
        None => true,
    }
}

/// The `res` completer (see [`res_completions`]).
pub fn complete_res(request: &CompletionRequest, resources: &ConsoleResources) -> (r: Vec<CompletionItem>)
    ensures
        r@.map_values(|i: CompletionItem| i@) == res_completions(request@, resources.views()),
{
    let index = request.argument_index();
    if index == 0 {
        let ops = [
            ("add", "Adds to a numeric resource"),
            ("get", "Shows a resource value"),
            ("set", "Sets a resource value"),
            ("sub", "Subtracts from a numeric resource"),
            ("toggle", "Toggles a boolean resource"),
        ];
        let r = static_completion_items(&ops);
        assert(r@.map_values(|i: CompletionItem| i@) =~= res_completions(request@, resources.views()));
        return r;
    }
    let mut out: Vec<CompletionItem> = Vec::new();
    if index == 1 {
        let op = request.argument(0);
        let ghost opv = match op {
            Some(o) => Some(o@),
            None => None,
        };
        let ghost rs = resources.views();
        assert(opv == if request@.parsed.tokens.len() > 1 {
            Some(request@.parsed.tokens[1].value)
        } else {
            None::<Seq<char>>
        });
        let mut k: usize = 0;
        assert(rs.take(0) =~= Seq::<PropertyView>::empty());
        assert(out@.map_values(|i: CompletionItem| i@) =~= Seq::<ItemView>::empty());
        while k < resources.len()
            invariant
                0 <= k <= rs.len(),
                rs == resources.views(),
                out@.map_values(|i: CompletionItem| i@) == property_items(rs.take(k as int), opv),
                opv == match op {
                    Some(o) => Some(o@),
                    None => None,
                },
            decreases rs.len() - k,
        {
            let e = resources.entry(k);
            assert(rs.take(k + 1).drop_last() =~= rs.take(k as int));
            assert(rs.take(k + 1).last() == e@);
            if is_offered(op, e) {
                proof {
                    reveal_strlit("");
                    reveal_strlit("resource property");
                }
                let detail = if str_eq(e.help.as_str(), "") {
                    assert(e@.help.len() == 0) by {
                        assert(""@ =~= Seq::<char>::empty());
                    }
                    "resource property"
                } else {
                    assert(e@.help.len() != 0) by {
                        if e@.help.len() == 0 {
                            assert(e@.help =~= ""@);
                        }
                    }
                    e.help.as_str()
                };
                let ghost before = out@.map_values(|i: CompletionItem| i@);
                let item = CompletionItem::new(e.name.as_str(), detail);
                assert(item@ == property_item(e@));
                out.push(item);
                assert(out@.map_values(|i: CompletionItem| i@) =~= before.push(property_item(e@)));
            }
            k = k + 1;
        }
        assert(rs.take(rs.len() as int) =~= rs);
        return out;
    }
    if index == 2 {
        let is_set = match request.argument(0) {
            Some(op) => str_eq_ignore_case(op, "set"),
            None => false,
        };
        if is_set {
            if let Some(name) = request.argument(1) {
                if let Some(i) = resources.get(name) {
                    let e = resources.entry(i);
                    if e.kind == PropertyKind::Boolean && !e.readonly {
                        out.push(CompletionItem::from_label("true"));
                        out.push(CompletionItem::from_label("false"));
                        proof {
                            reveal_strlit("true");
                            reveal_strlit("false");
                        }
                        assert(out@.map_values(|i: CompletionItem| i@) =~= res_completions(
                            request@,
                            resources.views(),
                        ));
                        return out;
                    }
                }
            }
        }
    }
    assert(out@.map_values(|i: CompletionItem| i@) =~= res_completions(request@, resources.views()));
    out
}

} // verus!
