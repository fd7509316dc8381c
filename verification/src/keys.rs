//! Physical keys, modifier chords and the runtime key bindings of the `bind`
//! command.
//!
//! A key is a unit variant of Bevy's `KeyCode`, identified by its position in
//! the enum's reflected variant list; its name is the variant's name.

use crate::int_table::{int_sorted, int_table_map, lemma_int_table_map};
use crate::model::{CommandOrigin, ConsoleCommandQueue, ConsoleRequest, QueuedView};
use crate::text::{
    append_str, copy_str, eq_ignore_case, lower_seq, split_chars, split_on, str_eq,
    str_eq_ignore_case, chars_of,
};
use bevy::input::keyboard::KeyCode;
use bevy::reflect::enums::VariantInfo;
use bevy::reflect::Typed;
use std::collections::BTreeMap;
use vstd::prelude::*;
use vstd::std_specs::btree::{increasing_seq, into_iter, key_obeys_cmp_spec, spec_btree_map_iter};
use vstd::std_specs::iter::IteratorSpec;

verus! {

broadcast use vstd::string::group_string_axioms;

/// The name of variant `index` of Bevy's `KeyCode` and whether it is a unit
/// variant; `None` past the last variant.
pub uninterp spec fn keycode_variant(index: u32) -> Option<(Seq<char>, bool)>;

/// Variant `index` of Bevy's `KeyCode` as reflection lists it (`EnumInfo::variant_at`).
/// The contract names the result; it claims nothing about the variant list
/// beyond being a function of the index.
#[verifier::external_body]
fn keycode_variant_at(index: u32) -> (r: Option<(String, bool)>)
    ensures
        match r {
            Some((name, unit)) => keycode_variant(index) == Some((name@, unit)),
            None => keycode_variant(index) is None,
        },
{
    match KeyCode::type_info().as_enum() {
        Ok(info) => match info.variant_at(index as usize) {
            Some(VariantInfo::Unit(v)) => Some((v.name().to_string(), true)),
            Some(other) => Some((other.name().to_string(), false)),
            None => None,
        },
        Err(_) => None,
    }
}

/// A physical key: a unit variant of `KeyCode`.
#[derive(Clone, Copy, Debug, PartialEq, Eq, Structural, Hash)]
pub struct ConsoleKey {
    index: u32,
}

impl ConsoleKey {
    #[verifier::type_invariant]
    closed spec fn valid(self) -> bool {
        keycode_variant(self.index) matches Some((_, true))
    }

    /// The key's position among `KeyCode`'s variants.
    pub closed spec fn spec_index(self) -> u32 {
        self.index
    }

    /// The key's position among `KeyCode`'s variants.
    pub fn index(&self) -> (r: u32)
        ensures
            r == self.spec_index(),
            keycode_variant(r) matches Some((_, true)),
    {
        proof {
            use_type_invariant(self);
        }
        self.index
    }

    /// The key at variant position `index`, if that variant is a unit variant.
    pub fn from_index(index: u32) -> (r: Option<ConsoleKey>)
        ensures
            match keycode_variant(index) {
                Some((_, true)) => r matches Some(k) && k.spec_index() == index,
                _ => r is None,
            },
    {
        match keycode_variant_at(index) {
            Some((_, true)) => Some(ConsoleKey { index }),
            _ => None,
        }
    }

    /// The key's variant name, as `KeyCode`'s `Debug` prints it.
    pub fn name(&self) -> (r: String)
        ensures
            keycode_variant(self.spec_index()) == Some((r@, true)),
    {
        proof {
            use_type_invariant(self);
        }
        match keycode_variant_at(self.index) {
            Some((name, _)) => name,
            None => String::new(),
        }
    }
}

/// Modifier keys required for a [`ConsoleKeyBinding`].
#[derive(Clone, Copy, Debug, PartialEq, Eq, Structural, Hash)]
pub struct ConsoleKeyModifiers {
    pub ctrl: bool,
    /// The platform shortcut modifier: Command on macOS and Control elsewhere.
    pub meta: bool,
    pub shift: bool,
    pub alt: bool,
}

impl Default for ConsoleKeyModifiers {
    fn default() -> (r: Self)
        ensures
            r == (ConsoleKeyModifiers { ctrl: false, meta: false, shift: false, alt: false }),
    {
        ConsoleKeyModifiers { ctrl: false, meta: false, shift: false, alt: false }
    }
}

/// Which modifier keys are held (either side of each).
#[derive(Clone, Copy, Debug, PartialEq, Eq, Structural)]
pub struct HeldModifiers {
    pub control: bool,
    pub super_key: bool,
    pub shift: bool,
    pub alt: bool,
}

/// The held keys satisfy `m` exactly. On macOS Meta is the Command (Super)
/// key; elsewhere Meta is another name for Control and Super must be up.
pub open spec fn modifiers_match(m: ConsoleKeyModifiers, held: HeldModifiers, macos: bool) -> bool {
    let primary = if macos {
        m.ctrl == held.control && m.meta == held.super_key
    } else {
        (m.ctrl || m.meta) == held.control && !held.super_key
    };
    primary && m.shift == held.shift && m.alt == held.alt
}

impl ConsoleKeyModifiers {
    /// Whether the held keys satisfy these modifiers exactly (see
    /// [`modifiers_match`]).
    pub fn matches(self, held: HeldModifiers, macos: bool) -> (r: bool)
        ensures
            r == modifiers_match(self, held, macos),
    {
        let primary = if macos {
            self.ctrl == held.control && self.meta == held.super_key
        } else {
            (self.ctrl || self.meta) == held.control && !held.super_key
        };
        primary && self.shift == held.shift && self.alt == held.alt
    }
}

/// A physical key and its required modifiers.
#[derive(Clone, Copy, Debug, PartialEq, Eq, Structural, Hash)]
pub struct ConsoleKeyBinding {
    pub key: ConsoleKey,
    pub modifiers: ConsoleKeyModifiers,
}

/// The number of the chord of key `k` with modifiers `m`, ordered as
/// bindings compare: by key, then by the ctrl, meta, shift and alt flags.
pub open spec fn chord_code(m: ConsoleKeyModifiers, k: u32) -> u64 {
    (k as int * 16 + (if m.ctrl {
        8int
    } else {
        0
    }) + (if m.meta {
        4int
    } else {
        0
    }) + (if m.shift {
        2int
    } else {
        0
    }) + (if m.alt {
        1int
    } else {
        0
    })) as u64
}

/// The number of a binding (see [`chord_code`]).
pub open spec fn binding_code(b: ConsoleKeyBinding) -> u64 {
    chord_code(b.modifiers, b.key.spec_index())
}

/// The name of variant `i`, or nothing past the last variant.
pub open spec fn key_name_of(i: u32) -> Seq<char> {
    match keycode_variant(i) {
        Some((n, _)) => n,
        None => Seq::empty(),
    }
}

/// The text a chord is shown as: `ctrl+`, `meta+`, `shift+` and `alt+` for
/// each modifier, then the key's name.
pub open spec fn chord_label(m: ConsoleKeyModifiers, key_name: Seq<char>) -> Seq<char> {
    (if m.ctrl {
        "ctrl+"@
    } else {
        Seq::empty()
    }) + (if m.meta {
        "meta+"@
    } else {
        Seq::empty()
    }) + (if m.shift {
        "shift+"@
    } else {
        Seq::empty()
    }) + (if m.alt {
        "alt+"@
    } else {
        Seq::empty()
    }) + key_name
}

/// The text a binding is shown as, e.g. `ctrl+KeyW`.
pub open spec fn binding_label(b: ConsoleKeyBinding) -> Seq<char> {
    chord_label(b.modifiers, key_name_of(b.key.spec_index()))
}

/// Distinct bindings never share a slot: a binding's number determines its
/// key and modifiers.
pub proof fn law_binding_codes_distinct(a: ConsoleKeyBinding, b: ConsoleKeyBinding)
    requires
        binding_code(a) == binding_code(b),
    ensures
        a == b,
{
    let ia = a.key.spec_index() as int;
    let ib = b.key.spec_index() as int;
    let ma = binding_code(a) as int - ia * 16;
    let mb = binding_code(b) as int - ib * 16;
    assert(0 <= ma < 16 && 0 <= mb < 16);
    assert(ia == ib) by (nonlinear_arith)
        requires
            ia * 16 + ma == ib * 16 + mb,
            0 <= ma < 16,
            0 <= mb < 16,
    ;
    assert(a.key == b.key) by {
        assert(a.key.spec_index() == b.key.spec_index());
        lemma_key_eq(a.key, b.key);
    }
}

proof fn lemma_key_eq(a: ConsoleKey, b: ConsoleKey)
    requires
        a.spec_index() == b.spec_index(),
    ensures
        a == b,
{
}

impl ConsoleKeyBinding {
    /// The key with no modifiers.
    pub fn new(key: ConsoleKey) -> (r: Self)
        ensures
            r == (ConsoleKeyBinding {
                key,
                modifiers: ConsoleKeyModifiers { ctrl: false, meta: false, shift: false, alt: false },
            }),
    {
        ConsoleKeyBinding {
            key,
            modifiers: ConsoleKeyModifiers { ctrl: false, meta: false, shift: false, alt: false },
        }
    }

    /// The binding's number (see [`binding_code`]).
    pub fn code(&self) -> (r: u64)
        ensures
            r == binding_code(*self),
    {
        let i = self.key.index() as u64;
        let mut c: u64 = i * 16;
        if self.modifiers.ctrl {
            c = c + 8;
        }
        if self.modifiers.meta {
            c = c + 4;
        }
        if self.modifiers.shift {
            c = c + 2;
        }
        if self.modifiers.alt {
            c = c + 1;
        }
        c
    }

    /// The binding text, e.g. `ctrl+KeyW` (see [`binding_label`]).
    pub fn label(&self) -> (r: String)
        ensures
            r@ == binding_label(*self),
    {
        let mut s = String::new();
        if self.modifiers.ctrl {
            append_str(&mut s, "ctrl+");
        }
        if self.modifiers.meta {
            append_str(&mut s, "meta+");
        }
        if self.modifiers.shift {
            append_str(&mut s, "shift+");
        }
        if self.modifiers.alt {
            append_str(&mut s, "alt+");
        }
        let name = self.key.name();
        append_str(&mut s, name.as_str());
        assert(s@ =~= binding_label(*self));
        s
    }
}

/// Bindings created through the `bind` command: each runs its command when
/// its key is pressed with exactly its modifiers while the console is closed.
#[derive(Debug)]
pub struct ConsoleBinds {
    map: BTreeMap<u64, String>,
}

impl View for ConsoleBinds {
    type V = Map<u64, Seq<char>>;

    /// Binding code to command.
    closed spec fn view(&self) -> Map<u64, Seq<char>> {
        self.map@.map_values(|s: String| s@)
    }
}

/// A number that [`binding_code`] gives some binding.
pub open spec fn valid_code(c: u64) -> bool {
    c / 16 <= u32::MAX && variant_is_unit((c / 16) as u32)
}

/// The modifiers a binding code records.
pub open spec fn code_modifiers(c: u64) -> ConsoleKeyModifiers {
    let m = c % 16;
    ConsoleKeyModifiers { ctrl: m >= 8, meta: m % 8 >= 4, shift: m % 4 >= 2, alt: m % 2 == 1 }
}

pub proof fn lemma_code_parts(b: ConsoleKeyBinding)
    ensures
        binding_code(b) / 16 == b.key.spec_index(),
        code_modifiers(binding_code(b)) == b.modifiers,
{
    let i = b.key.spec_index() as int;
    let m = binding_code(b) as int - i * 16;
    assert(0 <= m < 16);
    assert(binding_code(b) as int == i * 16 + m);
    assert((i * 16 + m) / 16 == i && (i * 16 + m) % 16 == m) by (nonlinear_arith)
        requires
            0 <= m < 16,
            0 <= i,
    ;
}

/// The codes of a map's listing increase.
proof fn lemma_codes_increase(s: Seq<u64>)
    requires
        increasing_seq(s),
    ensures
        forall|i: int, j: int| 0 <= i < j < s.len() ==> s[i] < s[j],
{
    broadcast use vstd::laws_cmp::group_laws_cmp;
    broadcast use vstd::std_specs::btree::group_btree_axioms;

    assert forall|i: int, j: int| 0 <= i < j < s.len() implies s[i] < s[j] by {
        assert(vstd::std_specs::cmp::OrdSpec::cmp_spec(&s[i], &s[j]) is Less);
    }
}

/// Maps keyed by binding code behave as maps.
proof fn lemma_code_keys_ordered()
    ensures
        vstd::laws_cmp::obeys_cmp::<u64>(),
        key_obeys_cmp_spec::<u64>(),
{
    broadcast use vstd::laws_cmp::group_laws_cmp;
    broadcast use vstd::std_specs::btree::group_btree_axioms;

}

impl ConsoleBinds {
    /// The bindings in order, as (binding code, command).
    pub closed spec fn entries(&self) -> Seq<(u64, Seq<char>)> {
        into_iter(spec_btree_map_iter(&self.map)).map_values(|kv: (u64, String)| (kv.0, kv.1@))
    }

    #[verifier::type_invariant]
    closed spec fn inv(&self) -> bool {
        forall|c: u64| self.map@.contains_key(c) ==> valid_code(c)
    }

    /// No bindings.
    pub fn new() -> (r: Self)
        ensures
            r@ == Map::<u64, Seq<char>>::empty(),
    {
        let r = ConsoleBinds { map: BTreeMap::new() };
        assert(r@ =~= Map::<u64, Seq<char>>::empty());
        r
    }

    /// The bindings in code order, with their commands.
    fn pairs(&self) -> (r: Vec<(u64, String)>)
        ensures
            r@.len() == self.entries().len(),
            forall|i: int|
                0 <= i < r@.len() ==> (#[trigger] r@[i]).0 == self.entries()[i].0 && r@[i].1@
                    == self.entries()[i].1,
            int_sorted(self.entries()),
            self@ == int_table_map(self.entries()),
    {
        broadcast use vstd::std_specs::btree::group_btree_axioms;

        proof {
            lemma_code_keys_ordered();
        }
        let it0 = self.map.iter();
        let ghost v = it0.remaining();
        let ghost keys = v.map_values(|kv: (&u64, &String)| *kv.0);
        proof {
            lemma_codes_increase(keys);
        }
        let ghost es = self.entries();
        let mut out: Vec<(u64, String)> = Vec::new();
        for (k, c) in it: it0
            invariant
                out@.len() == it.index(),
                forall|i: int|
                    0 <= i < it.index() ==> out@[i].0 == *it.seq()[i].0 && out@[i].1 == *it.seq()[i].1,
        {
            out.push((*k, c.clone()));
        }
        proof {
            assert(into_iter(it0) == v.unref());
            assert(es.len() == v.len());
            assert forall|i: int| 0 <= i < es.len() implies #[trigger] es[i] == (*v[i].0, (*v[i].1)@) by {}
            assert(int_sorted(es)) by {
                assert forall|i: int, j: int| 0 <= i < j < es.len() implies #[trigger] es[i].0
                    < #[trigger] es[j].0 by {
                    assert(es[i].0 == keys[i] && es[j].0 == keys[j]);
                }
            }
            lemma_int_table_map(es);
            assert forall|k: u64| #[trigger] self@.contains_key(k) <==> int_table_map(es).contains_key(k) by {
                if self.map@.contains_key(k) {
                    assert(v.contains((&k, &self.map@[k])));
                    let i = choose|i: int| 0 <= i < v.len() && v[i] == (&k, &self.map@[k]);
                    assert(es[i].0 == k);
                    assert(crate::int_table::int_has_key(es, k));
                }
                if crate::int_table::int_has_key(es, k) {
                    let i = choose|i: int| 0 <= i < es.len() && #[trigger] es[i].0 == k;
                    assert(self.map@.contains_key(*v[i].0));
                }
            }
            assert forall|k: u64| #[trigger] self@.contains_key(k) implies self@[k] == int_table_map(es)[k] by {
                assert(crate::int_table::int_has_key(es, k));
                let i = choose|i: int| 0 <= i < es.len() && #[trigger] es[i].0 == k;
                assert(self.map@.contains_key(*v[i].0) && self.map@[*v[i].0] == *v[i].1);
            }
            assert(self@ =~= int_table_map(es));
            assert forall|i: int| 0 <= i < out@.len() implies (#[trigger] out@[i]).0 == es[i].0
                && out@[i].1@ == es[i].1 by {}
        }
        out
    }

    /// The bindings in order with their commands.
    pub fn iter(&self) -> (r: Vec<(ConsoleKeyBinding, String)>)
        ensures
            self@ == int_table_map(self.entries()),
            int_sorted(self.entries()),
            r@.len() == self.entries().len(),
            forall|i: int|
                0 <= i < r@.len() ==> binding_code((#[trigger] r@[i]).0) == self.entries()[i].0
                    && r@[i].1@ == self.entries()[i].1,
    {
        proof {
            use_type_invariant(self);
        }
        let pairs = self.pairs();
        let n = pairs.len();
        proof {
            lemma_int_table_map(self.entries());
            assert forall|k: int| 0 <= k < n implies valid_code(#[trigger] pairs@[k].0) by {
                assert(crate::int_table::int_has_key(self.entries(), self.entries()[k].0));
                assert(self@.contains_key(self.entries()[k].0));
            }
        }
        let mut out: Vec<(ConsoleKeyBinding, String)> = Vec::new();
        let mut i: usize = 0;
        while i < n
            invariant
                0 <= i <= n,
                n == pairs@.len(),
                n == self.entries().len(),
                forall|k: int| 0 <= k < n ==> valid_code(#[trigger] pairs@[k].0),
                forall|k: int|
                    0 <= k < n ==> (#[trigger] pairs@[k]).0 == self.entries()[k].0 && pairs@[k].1@
                        == self.entries()[k].1,
                out@.len() == i,
                forall|k: int|
                    0 <= k < i ==> binding_code((#[trigger] out@[k]).0) == self.entries()[k].0
                        && out@[k].1@ == self.entries()[k].1,
            decreases n - i,
        {
            let code = pairs[i].0;
            assert(valid_code(pairs@[i as int].0));
            let index = (code / 16) as u32;
            let m = code % 16;
            let key = ConsoleKey { index };
            let binding = ConsoleKeyBinding {
                key,
                modifiers: ConsoleKeyModifiers {
                    ctrl: m >= 8,
                    meta: m % 8 >= 4,
                    shift: m % 4 >= 2,
                    alt: m % 2 == 1,
                },
            };
            proof {
                lemma_code_parts(binding);
                let c = code as int;
                assert(c == (c / 16) * 16 + c % 16) by (nonlinear_arith);
            }
            out.push((binding, pairs[i].1.clone()));
            i = i + 1;
        }
        out
    }

    /// Assigns `command` to `key` without modifiers; returns the command it replaced.
    pub fn set(&mut self, key: ConsoleKey, command: &str) -> (r: Option<String>)
        ensures
            final(self)@ == old(self)@.insert(binding_code(ConsoleKeyBinding::new_spec(key)), command@),
            match old(self)@.get(binding_code(ConsoleKeyBinding::new_spec(key))) {
                Some(c) => r matches Some(p) && p@ == c,
                None => r is None,
            },
    {
        self.set_binding(ConsoleKeyBinding::new(key), command)
    }

    /// Assigns `command` to a key and modifier combination; returns the
    /// command it replaced.
    pub fn set_binding(&mut self, binding: ConsoleKeyBinding, command: &str) -> (r: Option<String>)
        ensures
            final(self)@ == old(self)@.insert(binding_code(binding), command@),
            match old(self)@.get(binding_code(binding)) {
                Some(c) => r matches Some(p) && p@ == c,
                None => r is None,
            },
    {
        proof {
            use_type_invariant(&*self);
            use_type_invariant(&binding.key);
            lemma_code_parts(binding);
            lemma_code_keys_ordered();
        }
        let code = binding.code();
        let mut map = BTreeMap::new();
        std::mem::swap(&mut map, &mut self.map);
        let ghost before = map@;
        let r = map.insert(code, copy_str(command));
        proof {
            assert(map@.map_values(|s: String| s@) =~= before.map_values(|s: String| s@).insert(
                code,
                command@,
            ));
        }
        self.map = map;
        r
    }

    /// The command assigned to `key` without modifiers.
    pub fn get(&self, key: ConsoleKey) -> (r: Option<&str>)
        ensures
            match self@.get(binding_code(ConsoleKeyBinding::new_spec(key))) {
                Some(c) => r matches Some(p) && p@ == c,
                None => r is None,
            },
    {
        self.get_binding(ConsoleKeyBinding::new(key))
    }

    /// The command assigned to a key and modifier combination.
    pub fn get_binding(&self, binding: ConsoleKeyBinding) -> (r: Option<&str>)
        ensures
            match self@.get(binding_code(binding)) {
                Some(c) => r matches Some(p) && p@ == c,
                None => r is None,
            },
    {
        broadcast use vstd::std_specs::btree::group_btree_axioms;

        proof {
            lemma_code_keys_ordered();
        }
        let code = binding.code();
        match self.map.get(&code) {
            Some(c) => Some(c.as_str()),
            None => None,
        }
    }

    /// Removes the binding of `key` without modifiers; returns its command.
    pub fn remove(&mut self, key: ConsoleKey) -> (r: Option<String>)
        ensures
            final(self)@ == old(self)@.remove(binding_code(ConsoleKeyBinding::new_spec(key))),
            match old(self)@.get(binding_code(ConsoleKeyBinding::new_spec(key))) {
                Some(c) => r matches Some(p) && p@ == c,
                None => r is None,
            },
    {
        self.remove_binding(ConsoleKeyBinding::new(key))
    }

    /// Removes a key and modifier combination; returns its command.
    pub fn remove_binding(&mut self, binding: ConsoleKeyBinding) -> (r: Option<String>)
        ensures
            final(self)@ == old(self)@.remove(binding_code(binding)),
            match old(self)@.get(binding_code(binding)) {
                Some(c) => r matches Some(p) && p@ == c,
                None => r is None,
            },
    {
        broadcast use vstd::std_specs::btree::group_btree_axioms;

        proof {
            use_type_invariant(&*self);
            lemma_code_keys_ordered();
        }
        let code = binding.code();
        let mut map = BTreeMap::new();
        std::mem::swap(&mut map, &mut self.map);
        let ghost before = map@;
        let r = map.remove(&code);
        proof {
            assert(map@.map_values(|s: String| s@) =~= before.map_values(|s: String| s@).remove(code));
        }
        self.map = map;
        r
    }
}

impl ConsoleKeyBinding {
    /// The key with no modifiers.
    pub open spec fn new_spec(key: ConsoleKey) -> ConsoleKeyBinding {
        ConsoleKeyBinding {
            key,
            modifiers: ConsoleKeyModifiers { ctrl: false, meta: false, shift: false, alt: false },
        }
    }
}

impl Default for ConsoleBinds {
    fn default() -> (r: Self)
        ensures
            r@ == Map::<u64, Seq<char>>::empty(),
    {
        ConsoleBinds::new()
    }
}

/// An ASCII letter.
pub open spec fn is_ascii_alpha(c: char) -> bool {
    ('a' <= c && c <= 'z') || ('A' <= c && c <= 'Z')
}

/// An ASCII digit.
pub open spec fn is_ascii_digit(c: char) -> bool {
    '0' <= c && c <= '9'
}

/// ASCII upper-casing of one character.
pub open spec fn upper(c: char) -> char {
    if 'a' <= c && c <= 'z' {
        ((c as u32) - 32) as char
    } else {
        c
    }
}

/// The variant name a key name stands for: a single letter `x` means `KeyX`,
/// a single digit `d` means `Digitd`, anything else is itself.
pub open spec fn key_shorthand(name: Seq<char>) -> Seq<char> {
    if name.len() == 1 && is_ascii_alpha(name[0]) {
        "Key"@ + seq![upper(name[0])]
    } else if name.len() == 1 && is_ascii_digit(name[0]) {
        "Digit"@ + name
    } else {
        name
    }
}

/// Variant `i` is the first whose name equals `target` ignoring ASCII case.
pub open spec fn first_named(target: Seq<char>, i: u32) -> bool {
    &&& keycode_variant(i) matches Some((n, _)) && eq_ignore_case(n, target)
    &&& forall|j: u32|
        j < i ==> (#[trigger] keycode_variant(j) matches Some((m, _)) && !eq_ignore_case(m, target))
}

/// Variant `i` exists and is a unit variant.
pub open spec fn variant_is_unit(i: u32) -> bool {
    match keycode_variant(i) {
        Some((_, unit)) => unit,
        None => false,
    }
}

/// The key a name stands for: the first variant named like its shorthand,
/// ignoring ASCII case, provided that variant is a unit variant.
pub open spec fn keycode_named(name: Seq<char>) -> Option<u32> {
    let t = key_shorthand(name);
    if exists|i: u32| first_named(t, i) && variant_is_unit(i) {
        Some(choose|i: u32| first_named(t, i) && variant_is_unit(i))
    } else {
        None
    }
}

proof fn lemma_first_named_unique(t: Seq<char>, i: u32, j: u32)
    requires
        first_named(t, i),
        first_named(t, j),
    ensures
        i == j,
{
    if i < j {
        assert(keycode_variant(i) matches Some((m, _)) && !eq_ignore_case(m, t));
    } else if j < i {
        assert(keycode_variant(j) matches Some((m, _)) && !eq_ignore_case(m, t));
    }
}

/// The characters of the key-name shorthand (see [`key_shorthand`]).
fn shorthand_of(name: &str) -> (r: String)
    ensures
        r@ == key_shorthand(name@),
{
    let cs = chars_of(name);
    if cs.len() == 1 {
        let c = cs[0];
        if ('a' <= c && c <= 'z') || ('A' <= c && c <= 'Z') {
            let u = if 'a' <= c && c <= 'z' {
                let b = (c as u8) - 32;
                assert(b as u32 == (c as u32) - 32);
                b as char
            } else {
                c
            };
            let mut s = copy_str("Key");
            crate::text::push_char(&mut s, u);
            return s;
        }
        if '0' <= c && c <= '9' {
            let mut s = copy_str("Digit");
            append_str(&mut s, name);
            return s;
        }
    }
    copy_str(name)
}

/// The key a name stands for (see [`keycode_named`]).
pub fn parse_keycode(name: &str) -> (r: Option<ConsoleKey>)
    ensures
        match keycode_named(name@) {
            Some(i) => r matches Some(k) && k.spec_index() == i,
            None => r is None,
        },
{
    let target = shorthand_of(name);
    let ghost t = target@;
    let mut i: u32 = 0;
    loop
        invariant
            t == target@,
            t == key_shorthand(name@),
            forall|j: u32|
                j < i ==> (#[trigger] keycode_variant(j) matches Some((m, _)) && !eq_ignore_case(m, t)),
        decreases u32::MAX - i,
    {
        match keycode_variant_at(i) {
            None => {
                proof {
                    assert forall|k: u32| !(first_named(t, k) && variant_is_unit(k)) by {
                        if first_named(t, k) {
                            if k > i {
                                assert(keycode_variant(i) matches Some((m, _)) && !eq_ignore_case(m, t));
                            }
                        }
                    }
                }
                return None;
            },
            Some((n, unit)) => {
                if str_eq_ignore_case(n.as_str(), target.as_str()) {
                    assert(first_named(t, i));
                    if unit {
                        proof {
                            assert(first_named(t, i) && variant_is_unit(i));
                            let c = choose|k: u32| first_named(t, k) && variant_is_unit(k);
                            lemma_first_named_unique(t, c, i);
                        }
                        return Some(ConsoleKey { index: i });
                    } else {
                        proof {
                            assert forall|k: u32| !(first_named(t, k) && variant_is_unit(k)) by {
                                if first_named(t, k) {
                                    lemma_first_named_unique(t, k, i);
                                }
                            }
                        }
                        return None;
                    }
                }
            },
        }
        if i == u32::MAX {
            proof {
                assert forall|k: u32| !first_named(t, k) by {
                    if first_named(t, k) {
                        assert(keycode_variant(k) matches Some((m, _)) && !eq_ignore_case(m, t));
                    }
                }
            }
            return None;
        }
        i = i + 1;
    }
}

/// The chord read so far: its modifiers and its key, if one was named.
pub open spec fn chord_step(
    acc: Option<(ConsoleKeyModifiers, Option<u32>)>,
    part: Seq<char>,
) -> Option<(ConsoleKeyModifiers, Option<u32>)> {
    match acc {
        None => None,
        Some((m, key)) => if part.len() == 0 {
            None
        } else {
            let l = lower_seq(part);
            if (l == "ctrl"@ || l == "control"@) && !m.ctrl {
                Some((ConsoleKeyModifiers { ctrl: true, ..m }, key))
            } else if (l == "meta"@ || l == "cmd"@ || l == "command"@) && !m.meta {
                Some((ConsoleKeyModifiers { meta: true, ..m }, key))
            } else if l == "shift"@ && !m.shift {
                Some((ConsoleKeyModifiers { shift: true, ..m }, key))
            } else if l == "alt"@ && !m.alt {
                Some((ConsoleKeyModifiers { alt: true, ..m }, key))
            } else {
                match keycode_named(part) {
                    None => None,
                    Some(k) => if key is Some {
                        None
                    } else {
                        Some((m, Some(k)))
                    },
                }
            }
        },
    }
}

/// The chord read from `parts`, in order.
pub open spec fn chord_of(parts: Seq<Seq<char>>) -> Option<(ConsoleKeyModifiers, Option<u32>)>
    decreases parts.len(),
{
    if parts.len() == 0 {
        Some((ConsoleKeyModifiers { ctrl: false, meta: false, shift: false, alt: false }, None))
    } else {
        chord_step(chord_of(parts.drop_last()), parts.last())
    }
}

/// The binding a text like `ctrl+shift+w` names: `+`-separated parts, each a
/// modifier word (`ctrl`/`control`, `meta`/`cmd`/`command`, `shift`, `alt`,
/// ignoring ASCII case, each at most once) or a key name, with exactly one
/// key and no empty part.
pub open spec fn binding_named(input: Seq<char>) -> Option<(ConsoleKeyModifiers, u32)> {
    match chord_of(split_on(input, '+')) {
        Some((m, Some(k))) => Some((m, k)),
        _ => None,
    }
}

/// Reads a binding like `ctrl+shift+w` (see [`binding_named`]).
pub fn parse_key_binding(input: &str) -> (r: Option<ConsoleKeyBinding>)
    ensures
        match binding_named(input@) {
            Some((m, k)) => r matches Some(b) && b.modifiers == m && b.key.spec_index() == k,
            None => r is None,
        },
{
    let cs = chars_of(input);
    let parts = split_chars(cs.as_slice(), '+');
    let ghost pv = parts@.map_values(|p: String| p@);
    let mut modifiers = ConsoleKeyModifiers { ctrl: false, meta: false, shift: false, alt: false };
    let mut key: Option<ConsoleKey> = None;
    let mut i: usize = 0;
    assert(pv.take(0) =~= Seq::<Seq<char>>::empty());
    while i < parts.len()
        invariant
            0 <= i <= parts@.len(),
            pv == parts@.map_values(|p: String| p@),
            pv == split_on(input@, '+'),
            chord_of(pv.take(i as int)) == Some(
                (
                    modifiers,
                    match key {
                        Some(k) => Some(k.spec_index()),
                        None => None::<u32>,
                    },
                ),
            ),
        decreases parts@.len() - i,
    {
        let part = parts[i].as_str();
        assert(pv.take(i + 1).drop_last() =~= pv.take(i as int));
        assert(pv.take(i + 1).last() == part@);
        if part.is_empty() {
            proof {
                lemma_chord_none(pv, i as int + 1);
            }
            return None;
        }
        let lowered = crate::text::to_ascii_lowercase(part);
        let l = lowered.as_str();
        if (str_eq(l, "ctrl") || str_eq(l, "control")) && !modifiers.ctrl {
            modifiers.ctrl = true;
        } else if (str_eq(l, "meta") || str_eq(l, "cmd") || str_eq(l, "command")) && !modifiers.meta {
            modifiers.meta = true;
        } else if str_eq(l, "shift") && !modifiers.shift {
            modifiers.shift = true;
        } else if str_eq(l, "alt") && !modifiers.alt {
            modifiers.alt = true;
        } else {
            match parse_keycode(part) {
                None => {
                    proof {
                        lemma_chord_none(pv, i as int + 1);
                    }
                    return None;
                },
                Some(k) => {
                    if key.is_some() {
                        proof {
                            lemma_chord_none(pv, i as int + 1);
                        }
                        return None;
                    }
                    key = Some(k);
                },
            }
        }
        i = i + 1;
    }
    assert(pv.take(parts@.len() as int) =~= pv);
    match key {
        Some(k) => Some(ConsoleKeyBinding { key: k, modifiers }),
        None => None,
    }
}

/// Once reading fails, it stays failed for the remaining parts.
proof fn lemma_chord_none(pv: Seq<Seq<char>>, n: int)
    requires
        0 <= n <= pv.len(),
        chord_of(pv.take(n)) is None,
    ensures
        chord_of(pv) is None,
    decreases pv.len() - n,
{
    if n < pv.len() {
        assert(pv.take(n + 1).drop_last() =~= pv.take(n));
        lemma_chord_none(pv, n + 1);
    } else {
        assert(pv.take(n) =~= pv);
    }
}

/// The requests that pressing `pressed` (key positions) with `held` fires,
/// in binding order: the command of each binding whose key was pressed and
/// whose modifiers the held keys satisfy exactly.
pub open spec fn fired(
    entries: Seq<(u64, Seq<char>)>,
    pressed: Seq<u32>,
    held: HeldModifiers,
    macos: bool,
) -> Seq<QueuedView>
    decreases entries.len(),
{
    if entries.len() == 0 {
        Seq::empty()
    } else {
        let e = entries.last();
        let prev = fired(entries.drop_last(), pressed, held, macos);
        if pressed.contains((e.0 / 16) as u32) && modifiers_match(code_modifiers(e.0), held, macos) {
            prev.push(
                QueuedView {
                    input: e.1,
                    origin: CommandOrigin::LocalUi,
                    alias_depth: 0,
                    history_index: None,
                },
            )
        } else {
            prev
        }
    }
}

/// Queues the commands of the bindings that fire (see [`fired`]); nothing
/// fires while the console is open.
pub fn queue_bound_commands(
    console_open: bool,
    binds: &ConsoleBinds,
    just_pressed: &[ConsoleKey],
    held: HeldModifiers,
    macos: bool,
    queue: &mut ConsoleCommandQueue,
)
    ensures
        final(queue)@ == if console_open {
            old(queue)@
        } else {
            old(queue)@ + fired(
                binds.entries(),
                just_pressed@.map_values(|k: ConsoleKey| k.spec_index()),
                held,
                macos,
            )
        },
{
    if console_open {
        return;
    }
    let ghost pressed = just_pressed@.map_values(|k: ConsoleKey| k.spec_index());
    let ghost start = queue@;
    let bindings = binds.iter();
    let ghost es = binds.entries();
    let mut i: usize = 0;
    assert(es.take(0) =~= Seq::<(u64, Seq<char>)>::empty());
    assert(start + fired(es.take(0), pressed, held, macos) =~= start);
    while i < bindings.len()
        invariant
            0 <= i <= bindings@.len(),
            bindings@.len() == es.len(),
            es == binds.entries(),
            pressed == just_pressed@.map_values(|k: ConsoleKey| k.spec_index()),
            forall|k: int|
                0 <= k < bindings@.len() ==> binding_code((#[trigger] bindings@[k]).0) == es[k].0
                    && bindings@[k].1@ == es[k].1,
            queue@ == start + fired(es.take(i as int), pressed, held, macos),
        decreases bindings@.len() - i,
    {
        let (binding, command) = &bindings[i];
        proof {
            lemma_code_parts(*binding);
        }
        let mut hit = false;
        let mut k: usize = 0;
        while k < just_pressed.len()
            invariant
                0 <= k <= just_pressed@.len(),
                pressed == just_pressed@.map_values(|k: ConsoleKey| k.spec_index()),
                hit == exists|j: int| 0 <= j < k && pressed[j] == binding.key.spec_index(),
            decreases just_pressed@.len() - k,
        {
            assert(pressed[k as int] == just_pressed@[k as int].spec_index());
            if just_pressed[k].index() == binding.key.index() {
                hit = true;
            }
            k = k + 1;
        }
        assert(hit == pressed.contains(binding.key.spec_index()));
        assert(es.take(i + 1).drop_last() =~= es.take(i as int));
        assert(es.take(i + 1).last() == es[i as int]);
        assert((es[i as int].0 / 16) as u32 == binding.key.spec_index());
        if hit && binding.modifiers.matches(held, macos) {
            let ghost before = queue@;
            queue.push(ConsoleRequest { input: command.clone(), origin: CommandOrigin::LocalUi });
            assert(queue@ =~= start + fired(es.take(i + 1), pressed, held, macos));
        }
        i = i + 1;
    }
    assert(es.take(bindings@.len() as int) =~= es);
}

/// Text without `+` splits into itself; a word, a `+` and such text split
/// into the word and the text.
proof fn lemma_split_modifier(word: Seq<char>, key_text: Seq<char>)
    requires
        forall|i: int| 0 <= i < word.len() ==> word[i] != '+',
        forall|i: int| 0 <= i < key_text.len() ==> key_text[i] != '+',
    ensures
        split_on(key_text, '+') == seq![key_text],
        split_on(word + "+"@ + key_text, '+') == seq![word, key_text],
{
    reveal_strlit("+");
    crate::text::lemma_find_from(key_text, '+', 0);
    let s = word + "+"@ + key_text;
    crate::text::lemma_find_from(s, '+', 0);
    let f = crate::text::find_from(s, '+', 0);
    assert(s[word.len() as int] == '+');
    if f < word.len() {
        assert(s[f] == word[f]);
    }
    assert(f == word.len());
    assert(s.take(f) =~= word);
    assert(s.skip(f + 1) =~= key_text);
    assert(split_on(s, '+') == seq![s.take(f)] + split_on(s.skip(f + 1), '+'));
    assert(seq![word] + seq![key_text] =~= seq![word, key_text]);
}

/// Each modifier word sets only its own flag: when `key_text` alone names a
/// key with no modifiers, `alt+`, `shift+`, `ctrl+` or `meta+` before it name
/// that key with exactly that one modifier.
pub proof fn law_modifier_words_set_their_own_flag(key_text: Seq<char>, k: u32)
    requires
        binding_named(key_text) == Some((ConsoleKeyModifiers { ctrl: false, meta: false, shift: false, alt: false }, k)),
        forall|i: int| 0 <= i < key_text.len() ==> key_text[i] != '+',
    ensures
        binding_named("alt+"@ + key_text) == Some((ConsoleKeyModifiers { ctrl: false, meta: false, shift: false, alt: true }, k)),
        binding_named("shift+"@ + key_text) == Some((ConsoleKeyModifiers { ctrl: false, meta: false, shift: true, alt: false }, k)),
        binding_named("ctrl+"@ + key_text) == Some((ConsoleKeyModifiers { ctrl: true, meta: false, shift: false, alt: false }, k)),
        binding_named("meta+"@ + key_text) == Some((ConsoleKeyModifiers { ctrl: false, meta: true, shift: false, alt: false }, k)),
{
    reveal_strlit("alt");
    reveal_strlit("shift");
    reveal_strlit("ctrl");
    reveal_strlit("meta");
    reveal_strlit("control");
    reveal_strlit("cmd");
    reveal_strlit("command");
    reveal_strlit("+");
    reveal_strlit("alt+");
    reveal_strlit("shift+");
    reveal_strlit("ctrl+");
    reveal_strlit("meta+");
    let none = ConsoleKeyModifiers { ctrl: false, meta: false, shift: false, alt: false };
    let init = Some((none, None::<u32>));
    lemma_split_modifier("alt"@, key_text);
    lemma_split_modifier("shift"@, key_text);
    lemma_split_modifier("ctrl"@, key_text);
    lemma_split_modifier("meta"@, key_text);
    assert("alt+"@ =~= "alt"@ + "+"@);
    assert("shift+"@ =~= "shift"@ + "+"@);
    assert("ctrl+"@ =~= "ctrl"@ + "+"@);
    assert("meta+"@ =~= "meta"@ + "+"@);
    assert(seq![key_text].drop_last() =~= Seq::<Seq<char>>::empty());
    assert(chord_of(seq![key_text]) == chord_step(init, key_text));
    // Alone, the text reads as a key, so it is no modifier word.
    let l = lower_seq(key_text);
    assert(!(l == "ctrl"@ || l == "control"@ || l == "meta"@ || l == "cmd"@ || l == "command"@ || l
        == "shift"@ || l == "alt"@));
    assert(keycode_named(key_text) == Some(k));
    assert(lower_seq("alt"@) =~= "alt"@);
    assert(lower_seq("shift"@) =~= "shift"@);
    assert(lower_seq("ctrl"@) =~= "ctrl"@);
    assert(lower_seq("meta"@) =~= "meta"@);
    assert("alt"@ != "ctrl"@ && "alt"@ != "control"@ && "alt"@ != "meta"@ && "alt"@ != "cmd"@ && "alt"@
        != "command"@ && "alt"@ != "shift"@);
    assert("shift"@ != "ctrl"@ && "shift"@ != "control"@ && "shift"@ != "meta"@ && "shift"@ != "cmd"@
        && "shift"@ != "command"@);
    assert("meta"@ != "ctrl"@ && "meta"@ != "control"@);
    let pa = seq!["alt"@, key_text];
    assert(pa.drop_last() =~= seq!["alt"@]);
    assert(seq!["alt"@].drop_last() =~= Seq::<Seq<char>>::empty());
    assert(chord_of(seq!["alt"@]) == chord_step(init, "alt"@));
    assert(chord_of(pa) == chord_step(chord_of(seq!["alt"@]), key_text));
    let ps = seq!["shift"@, key_text];
    assert(ps.drop_last() =~= seq!["shift"@]);
    assert(seq!["shift"@].drop_last() =~= Seq::<Seq<char>>::empty());
    assert(chord_of(seq!["shift"@]) == chord_step(init, "shift"@));
    assert(chord_of(ps) == chord_step(chord_of(seq!["shift"@]), key_text));
    let pc = seq!["ctrl"@, key_text];
    assert(pc.drop_last() =~= seq!["ctrl"@]);
    assert(seq!["ctrl"@].drop_last() =~= Seq::<Seq<char>>::empty());
    assert(chord_of(seq!["ctrl"@]) == chord_step(init, "ctrl"@));
    assert(chord_of(pc) == chord_step(chord_of(seq!["ctrl"@]), key_text));
    let pm = seq!["meta"@, key_text];
    assert(pm.drop_last() =~= seq!["meta"@]);
    assert(seq!["meta"@].drop_last() =~= Seq::<Seq<char>>::empty());
    assert(chord_of(seq!["meta"@]) == chord_step(init, "meta"@));
    assert(chord_of(pm) == chord_step(chord_of(seq!["meta"@]), key_text));
}

} // verus!
