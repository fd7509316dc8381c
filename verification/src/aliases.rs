//! Runtime aliases: user-defined command expansions, named case-insensitively.

use crate::table::{law_listing_is_map, sorted, table_map, SortedTable};
use crate::text::{chars_of, copy_str, eq_ignore_case, lower_seq, to_ascii_lowercase};
use vstd::prelude::*;

verus! {

broadcast use vstd::string::group_string_axioms;

/// User-defined command expansions. Unlike aliases declared during command
/// registration, these can be created and removed at runtime through the
/// `alias` commands. Names are compared ignoring ASCII case.
#[derive(Debug)]
pub struct ConsoleAliases {
    table: SortedTable,
}

impl View for ConsoleAliases {
    type V = Map<Seq<char>, Seq<char>>;

    /// Lower-case alias name to expansion.
    closed spec fn view(&self) -> Map<Seq<char>, Seq<char>> {
        table_map(self.table.entries())
    }
}

/// Lower-casing a lower-case name changes nothing.
proof fn lemma_lower_idempotent(s: Seq<char>)
    ensures
        lower_seq(lower_seq(s)) == lower_seq(s),
{
    assert(lower_seq(lower_seq(s)) =~= lower_seq(s));
}

impl ConsoleAliases {
    /// The aliases in name order, as (lower-case name, expansion).
    pub closed spec fn entries(&self) -> Seq<(Seq<char>, Seq<char>)> {
        self.table.entries()
    }

    /// Every alias name is in lower case.
    #[verifier::type_invariant]
    closed spec fn names_lower(&self) -> bool {
        forall|k: Seq<char>| #[trigger] self@.contains_key(k) ==> lower_seq(k) == k
    }

    /// No aliases.
    pub fn new() -> (r: Self)
        ensures
            r@ == Map::<Seq<char>, Seq<char>>::empty(),
    {
        let r = ConsoleAliases { table: SortedTable::new() };
        assert(r@ =~= Map::<Seq<char>, Seq<char>>::empty());
        r
    }

    /// Defines (or redefines) the alias `name`.
    pub fn set(&mut self, name: &str, expansion: &str)
        ensures
            final(self)@ == old(self)@.insert(lower_seq(name@), expansion@),
    {
        proof {
            use_type_invariant(&*self);
            lemma_lower_idempotent(name@);
        }
        let key = to_ascii_lowercase(name);
        let ghost before = self@;
        let mut table = SortedTable::new();
        std::mem::swap(&mut table, &mut self.table);
        let ghost m = table_map(table.entries());
        let ghost kv = key@;
        let _ = table.insert(key, copy_str(expansion));
        proof {
            assert forall|k: Seq<char>| #[trigger] table_map(table.entries()).contains_key(k) implies lower_seq(
                k,
            ) == k by {
                if k != kv {
                    assert(m.contains_key(k));
                    assert(before.contains_key(k));
                }
            }
        }
        self.table = table;
    }

    /// The expansion of the alias `name`.
    pub fn get(&self, name: &str) -> (r: Option<&str>)
        ensures
            self@.contains_key(lower_seq(name@)) ==> (r matches Some(e) && e@ == self@[lower_seq(
                name@,
            )]),
            !self@.contains_key(lower_seq(name@)) ==> r is None,
    {
        let key = to_ascii_lowercase(name);
        let k = chars_of(key.as_str());
        match self.table.get(k.as_slice()) {
            Some(v) => Some(v.as_str()),
            None => None,
        }
    }

    /// Removes the alias `name`; returns its expansion.
    pub fn remove(&mut self, name: &str) -> (r: Option<String>)
        ensures
            final(self)@ == old(self)@.remove(lower_seq(name@)),
            old(self)@.contains_key(lower_seq(name@)) ==> (r matches Some(e) && e@ == old(
                self,
            )@[lower_seq(name@)]),
            !old(self)@.contains_key(lower_seq(name@)) ==> r is None,
    {
        proof {
            use_type_invariant(&*self);
        }
        let key = to_ascii_lowercase(name);
        let k = chars_of(key.as_str());
        let ghost before = self@;
        let mut table = SortedTable::new();
        std::mem::swap(&mut table, &mut self.table);
        let ghost m = table_map(table.entries());
        let r = table.remove(k.as_slice());
        proof {
            assert forall|k: Seq<char>| #[trigger] table_map(table.entries()).contains_key(k) implies lower_seq(
                k,
            ) == k by {
                assert(m.contains_key(k));
                assert(before.contains_key(k));
            }
        }
        self.table = table;
        r
    }

    /// Number of aliases.
    pub fn len(&self) -> (r: usize)
        ensures
            r == self.entries().len(),
            r == self@.len(),
            self@ == table_map(self.entries()),
            sorted(self.entries()),
    {
        let n = self.table.len();
        proof {
            law_listing_is_map(self.entries());
        }
        n
    }

    /// The aliases as (name, expansion) pairs, in name order: each name once,
    /// in lower case, with the expansion that `get` gives for it.
    pub fn iter(&self) -> (r: Vec<(String, String)>)
        ensures
            r@.map_values(|e: (String, String)| (e.0@, e.1@)) == self.entries(),
            self@ == table_map(self.entries()),
            sorted(self.entries()),
            forall|i: int| 0 <= i < r@.len() ==> lower_seq(#[trigger] r@[i].0@) == r@[i].0@,
    {
        proof {
            use_type_invariant(self);
        }
        let n = self.table.len();
        let mut out: Vec<(String, String)> = Vec::new();
        let mut i: usize = 0;
        while i < n
            invariant
                0 <= i <= n,
                n == self.entries().len(),
                out@.len() == i,
                forall|k: int|
                    0 <= k < i ==> (#[trigger] out@[k]).0@ == self.entries()[k].0 && out@[k].1@
                        == self.entries()[k].1,
            decreases n - i,
        {
            let (name, expansion) = self.table.entry(i);
            out.push((name.clone(), expansion.clone()));
            i = i + 1;
        }
        assert(out@.map_values(|e: (String, String)| (e.0@, e.1@)) =~= self.entries());
        proof {
            crate::table::lemma_table_map(self.entries());
            assert forall|i: int| 0 <= i < out@.len() implies lower_seq(#[trigger] out@[i].0@)
                == out@[i].0@ by {
                assert(crate::table::has_key(self.entries(), self.entries()[i].0));
                assert(self@.contains_key(out@[i].0@));
            }
        }
        out
    }
}

impl Default for ConsoleAliases {
    fn default() -> (r: Self)
        ensures
            r@ == Map::<Seq<char>, Seq<char>>::empty(),
    {
        ConsoleAliases::new()
    }
}

/// An alias reads back the expansion last set for it under any spelling of
/// its name that differs only in ASCII case, and nothing once removed under
/// any such spelling.
pub proof fn law_alias_names_ignore_case(
    m: Map<Seq<char>, Seq<char>>,
    name: Seq<char>,
    other: Seq<char>,
    expansion: Seq<char>,
)
    requires
        eq_ignore_case(name, other),
    ensures
        m.insert(lower_seq(name), expansion).contains_key(lower_seq(other)),
        m.insert(lower_seq(name), expansion)[lower_seq(other)] == expansion,
        !m.remove(lower_seq(other)).contains_key(lower_seq(name)),
{
}

/// Setting an alias adds a listed alias only for a new name: under a name
/// already defined, in any ASCII case, the expansion is replaced and the
/// count stays; every other alias is unchanged.
pub proof fn law_alias_set_count(m: Map<Seq<char>, Seq<char>>, name: Seq<char>, expansion: Seq<char>)
    requires
        m.dom().finite(),
    ensures
        m.insert(lower_seq(name), expansion).len() == m.len() + if m.contains_key(lower_seq(name)) {
            0int
        } else {
            1int
        },
        forall|other: Seq<char>|
            !eq_ignore_case(other, name) ==> (#[trigger] m.insert(lower_seq(name), expansion).contains_key(
                lower_seq(other),
            ) == m.contains_key(lower_seq(other)) && (m.contains_key(lower_seq(other)) ==> m.insert(
                lower_seq(name),
                expansion,
            )[lower_seq(other)] == m[lower_seq(other)])),
{
    let k = lower_seq(name);
    if m.contains_key(k) {
        assert(m.insert(k, expansion).dom() =~= m.dom());
    } else {
        assert(m.insert(k, expansion).dom() == m.dom().insert(k));
    }
}

} // verus!
