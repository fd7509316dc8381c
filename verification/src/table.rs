//! A map from strings to strings kept sorted by key, in the order `String`
//! compares (code point by code point).

use crate::text::{chars_eq, chars_of};
use vstd::prelude::*;

verus! {

broadcast use vstd::string::group_string_axioms;

/// `a` sorts strictly before `b`, comparing code points left to right.
pub open spec fn lex_lt(a: Seq<char>, b: Seq<char>) -> bool
    decreases a.len(),
{
    if a.len() == 0 {
        b.len() > 0
    } else if b.len() == 0 {
        false
    } else if (a[0] as u32) < (b[0] as u32) {
        true
    } else if (a[0] as u32) > (b[0] as u32) {
        false
    } else {
        lex_lt(a.drop_first(), b.drop_first())
    }
}

pub proof fn lemma_lex_irreflexive(a: Seq<char>)
    ensures
        !lex_lt(a, a),
    decreases a.len(),
{
    if a.len() > 0 {
        lemma_lex_irreflexive(a.drop_first());
    }
}

pub proof fn lemma_lex_total(a: Seq<char>, b: Seq<char>)
    ensures
        lex_lt(a, b) || lex_lt(b, a) || a == b,
    decreases a.len(),
{
    if a.len() > 0 && b.len() > 0 && a[0] as u32 == b[0] as u32 {
        lemma_lex_total(a.drop_first(), b.drop_first());
        vstd::utf8::char_u32_cast(a[0], a[0] as u32);
        vstd::utf8::char_u32_cast(b[0], b[0] as u32);
        if a.drop_first() == b.drop_first() {
            assert(a =~= seq![a[0]] + a.drop_first());
            assert(b =~= seq![b[0]] + b.drop_first());
        }
    } else if a.len() == 0 && b.len() == 0 {
        assert(a =~= b);
    }
}

pub proof fn lemma_lex_asym(a: Seq<char>, b: Seq<char>)
    ensures
        !(lex_lt(a, b) && lex_lt(b, a)),
    decreases a.len(),
{
    if a.len() > 0 && b.len() > 0 && a[0] as u32 == b[0] as u32 {
        lemma_lex_asym(a.drop_first(), b.drop_first());
    }
}

pub proof fn lemma_lex_trans(a: Seq<char>, b: Seq<char>, c: Seq<char>)
    requires
        lex_lt(a, b),
        lex_lt(b, c),
    ensures
        lex_lt(a, c),
    decreases a.len(),
{
    if a.len() > 0 && b.len() > 0 && c.len() > 0 && a[0] as u32 == b[0] as u32 && b[0] as u32
        == c[0] as u32 {
        lemma_lex_trans(a.drop_first(), b.drop_first(), c.drop_first());
    }
}

/// Whether `a` sorts strictly before `b`.
pub fn chars_lex_lt(a: &[char], b: &[char]) -> (r: bool)
    ensures
        r == lex_lt(a@, b@),
{
    let mut i: usize = 0;
    assert(a@.skip(0) =~= a@ && b@.skip(0) =~= b@);
    while i < a.len() && i < b.len() && a[i] == b[i]
        invariant
            0 <= i <= a@.len(),
            i <= b@.len(),
            lex_lt(a@, b@) == lex_lt(a@.skip(i as int), b@.skip(i as int)),
        decreases a@.len() - i,
    {
        assert(a@.skip(i as int).drop_first() =~= a@.skip(i + 1));
        assert(b@.skip(i as int).drop_first() =~= b@.skip(i + 1));
        i = i + 1;
    }
    assert(a@.skip(i as int).len() == 0 <==> i == a.len());
    assert(b@.skip(i as int).len() == 0 <==> i == b.len());
    if i == a.len() {
        i < b.len()
    } else if i == b.len() {
        false
    } else {
        assert(a@.skip(i as int)[0] == a@[i as int] && b@.skip(i as int)[0] == b@[i as int]);
        proof {
            vstd::utf8::char_u32_cast(a@[i as int], a@[i as int] as u32);
            vstd::utf8::char_u32_cast(b@[i as int], b@[i as int] as u32);
        }
        (a[i] as u32) < (b[i] as u32)
    }
}

/// Entries in strictly increasing key order.
pub open spec fn sorted(s: Seq<(Seq<char>, Seq<char>)>) -> bool {
    forall|i: int, j: int| 0 <= i < j < s.len() ==> lex_lt(#[trigger] s[i].0, #[trigger] s[j].0)
}

/// `k` is the key of some entry.
pub open spec fn has_key(s: Seq<(Seq<char>, Seq<char>)>, k: Seq<char>) -> bool {
    exists|i: int| 0 <= i < s.len() && #[trigger] s[i].0 == k
}

/// The entries as a map.
pub open spec fn table_map(s: Seq<(Seq<char>, Seq<char>)>) -> Map<Seq<char>, Seq<char>>
    decreases s.len(),
{
    if s.len() == 0 {
        Map::empty()
    } else {
        table_map(s.drop_first()).insert(s[0].0, s[0].1)
    }
}

/// For sorted entries, the map holds each key with its entry's value.
pub proof fn lemma_table_map(s: Seq<(Seq<char>, Seq<char>)>)
    requires
        sorted(s),
    ensures
        forall|k: Seq<char>| table_map(s).contains_key(k) <==> has_key(s, k),
        forall|i: int| 0 <= i < s.len() ==> table_map(s)[#[trigger] s[i].0] == s[i].1,
    decreases s.len(),
{
    if s.len() > 0 {
        let t = s.drop_first();
        assert(sorted(t)) by {
            assert forall|i: int, j: int| 0 <= i < j < t.len() implies lex_lt(
                #[trigger] t[i].0,
                #[trigger] t[j].0,
            ) by {
                assert(s[i + 1] == t[i] && s[j + 1] == t[j]);
            }
        }
        lemma_table_map(t);
        assert forall|k: Seq<char>| table_map(s).contains_key(k) <==> has_key(s, k) by {
            if has_key(s, k) {
                let i = choose|i: int| 0 <= i < s.len() && #[trigger] s[i].0 == k;
                if i > 0 {
                    assert(t[i - 1].0 == k);
                }
            }
            if has_key(t, k) {
                let i = choose|i: int| 0 <= i < t.len() && #[trigger] t[i].0 == k;
                assert(s[i + 1].0 == k);
            }
        }
        assert forall|i: int| 0 <= i < s.len() implies table_map(s)[#[trigger] s[i].0] == s[i].1 by {
            if i > 0 {
                assert(t[i - 1] == s[i]);
                assert(lex_lt(s[0].0, s[i].0));
                lemma_lex_irreflexive(s[0].0);
            }
        }
    }
}

/// A sorted listing holds exactly the entries of its map, one entry per key:
/// a pair is listed if and only if the map gives that value for that key,
/// and the listing is as long as the map has keys.
pub proof fn law_listing_is_map(s: Seq<(Seq<char>, Seq<char>)>)
    requires
        sorted(s),
    ensures
        forall|k: Seq<char>, e: Seq<char>|
            s.contains((k, e)) <==> (table_map(s).contains_key(k) && table_map(s)[k] == e),
        table_map(s).dom().finite(),
        table_map(s).len() == s.len(),
    decreases s.len(),
{
    lemma_table_map(s);
    assert forall|k: Seq<char>, e: Seq<char>|
        s.contains((k, e)) <==> (table_map(s).contains_key(k) && table_map(s)[k] == e) by {
        if s.contains((k, e)) {
            let i = choose|i: int| 0 <= i < s.len() && s[i] == (k, e);
            assert(s[i].0 == k);
            assert(has_key(s, k));
        }
        if table_map(s).contains_key(k) && table_map(s)[k] == e {
            assert(has_key(s, k));
            let i = choose|i: int| 0 <= i < s.len() && #[trigger] s[i].0 == k;
            assert(table_map(s)[s[i].0] == s[i].1);
            assert(s[i] == (k, e));
        }
    }
    if s.len() > 0 {
        let t = s.drop_first();
        assert(sorted(t)) by {
            assert forall|i: int, j: int| 0 <= i < j < t.len() implies lex_lt(
                #[trigger] t[i].0,
                #[trigger] t[j].0,
            ) by {
                assert(s[i + 1] == t[i] && s[j + 1] == t[j]);
            }
        }
        law_listing_is_map(t);
        lemma_table_map(t);
        assert(!table_map(t).contains_key(s[0].0)) by {
            if table_map(t).contains_key(s[0].0) {
                assert(has_key(t, s[0].0));
                let j = choose|j: int| 0 <= j < t.len() && #[trigger] t[j].0 == s[0].0;
                assert(s[j + 1] == t[j]);
                assert(lex_lt(s[0].0, s[j + 1].0));
                lemma_lex_irreflexive(s[0].0);
            }
        }
        assert(table_map(s).dom() == table_map(t).dom().insert(s[0].0));
    } else {
        assert(table_map(s).dom() =~= Set::<Seq<char>>::empty());
    }
}

/// A map from strings to strings, sorted by key.
#[derive(Debug)]
pub struct SortedTable {
    entries: Vec<(String, String)>,
}

impl SortedTable {
    /// The entries, in key order.
    pub closed spec fn entries(&self) -> Seq<(Seq<char>, Seq<char>)> {
        self.entries@.map_values(|e: (String, String)| (e.0@, e.1@))
    }

    #[verifier::type_invariant]
    closed spec fn inv(&self) -> bool {
        sorted(self.entries())
    }

    /// An empty table.
    pub fn new() -> (r: Self)
        ensures
            r.entries().len() == 0,
    {
        let r = SortedTable { entries: Vec::new() };
        assert(r.entries() =~= Seq::<(Seq<char>, Seq<char>)>::empty());
        r
    }

    /// The position of the first entry whose key does not sort before `key`.
    fn position(&self, key: &[char]) -> (r: usize)
        ensures
            r <= self.entries().len(),
            forall|i: int| 0 <= i < r ==> lex_lt(#[trigger] self.entries()[i].0, key@),
            r < self.entries().len() ==> !lex_lt(self.entries()[r as int].0, key@),
    {
        proof {
            use_type_invariant(self);
        }
        let mut i: usize = 0;
        while i < self.entries.len()
            invariant
                0 <= i <= self.entries@.len(),
                sorted(self.entries()),
                forall|j: int| 0 <= j < i ==> lex_lt(#[trigger] self.entries()[j].0, key@),
            decreases self.entries@.len() - i,
        {
            let k = chars_of(self.entries[i].0.as_str());
            assert(k@ == self.entries()[i as int].0);
            if !chars_lex_lt(k.as_slice(), key) {
                return i;
            }
            i = i + 1;
        }
        i
    }

    /// The value stored for `key`.
    pub fn get(&self, key: &[char]) -> (r: Option<&String>)
        ensures
            table_map(self.entries()).contains_key(key@) ==> (r matches Some(v) && v@ == table_map(
                self.entries(),
            )[key@]),
            !table_map(self.entries()).contains_key(key@) ==> r is None,
    {
        proof {
            use_type_invariant(self);
            lemma_table_map(self.entries());
        }
        let p = self.position(key);
        if p < self.entries.len() {
            let k = chars_of(self.entries[p].0.as_str());
            if chars_eq(k.as_slice(), key) {
                assert(self.entries()[p as int].0 == key@);
                assert(has_key(self.entries(), key@));
                return Some(&self.entries[p].1);
            }
            proof {
                self.lemma_absent(key@, p as int);
            }
        } else {
            proof {
                self.lemma_absent(key@, p as int);
            }
        }
        None
    }

    proof fn lemma_absent(&self, key: Seq<char>, p: int)
        requires
            sorted(self.entries()),
            0 <= p <= self.entries().len(),
            forall|i: int| 0 <= i < p ==> lex_lt(#[trigger] self.entries()[i].0, key),
            p < self.entries().len() ==> !lex_lt(self.entries()[p].0, key) && self.entries()[p].0
                != key,
        ensures
            !has_key(self.entries(), key),
    {
        let s = self.entries();
        if has_key(s, key) {
            let i = choose|i: int| 0 <= i < s.len() && #[trigger] s[i].0 == key;
            if i < p {
                lemma_lex_irreflexive(key);
            } else if i > p {
                assert(lex_lt(s[p].0, s[i].0));
                lemma_lex_total(s[p].0, key);
            }
        }
    }

    /// Sets `key` to `value`; returns the value it replaced.
    pub fn insert(&mut self, key: String, value: String) -> (r: Option<String>)
        ensures
            table_map(final(self).entries()) == table_map(old(self).entries()).insert(
                key@,
                value@,
            ),
            table_map(old(self).entries()).contains_key(key@) ==> (r matches Some(v) && v@
                == table_map(old(self).entries())[key@]),
            !table_map(old(self).entries()).contains_key(key@) ==> r is None,
    {
        proof {
            use_type_invariant(&*self);
            lemma_table_map(self.entries());
        }
        let kc = chars_of(key.as_str());
        let p = self.position(kc.as_slice());
        let ghost s = self.entries();
        let ghost kv = (key@, value@);
        if p < self.entries.len() {
            let k = chars_of(self.entries[p].0.as_str());
            if chars_eq(k.as_slice(), kc.as_slice()) {
                assert(s[p as int].0 == key@);
                assert(has_key(s, key@));
                let mut entries: Vec<(String, String)> = Vec::new();
                std::mem::swap(&mut entries, &mut self.entries);
                let (_, old_value) = entries.remove(p);
                entries.insert(p, (key, value));
                let ghost s2 = entries@.map_values(|e: (String, String)| (e.0@, e.1@));
                assert(s2 =~= s.update(p as int, kv));
                proof {
                    assert(sorted(s2)) by {
                        assert forall|i: int, j: int| 0 <= i < j < s2.len() implies lex_lt(
                            #[trigger] s2[i].0,
                            #[trigger] s2[j].0,
                        ) by {
                            assert(s2[i].0 == s[i].0 && s2[j].0 == s[j].0);
                        }
                    }
                    lemma_table_map(s2);
                    assert forall|k2: Seq<char>| table_map(s2).contains_key(k2) <==> table_map(s).insert(key@, value@).contains_key(k2) by {
                        if has_key(s2, k2) {
                            let i = choose|i: int| 0 <= i < s2.len() && #[trigger] s2[i].0 == k2;
                            assert(s[i].0 == k2);
                        }
                        if has_key(s, k2) {
                            let i = choose|i: int| 0 <= i < s.len() && #[trigger] s[i].0 == k2;
                            assert(s2[i].0 == k2);
                        }
                    }
                    assert forall|k2: Seq<char>| table_map(s2).contains_key(k2) implies table_map(
                        s2,
                    )[k2] == table_map(s).insert(key@, value@)[k2] by {
                        assert(has_key(s2, k2));
                        let i = choose|i: int| 0 <= i < s2.len() && #[trigger] s2[i].0 == k2;
                        assert(table_map(s2)[s2[i].0] == s2[i].1);
                        if i != p {
                            assert(table_map(s)[s[i].0] == s[i].1);
                        }
                    }
                    assert(table_map(s2) =~= table_map(s).insert(key@, value@));
                }
                self.entries = entries;
                return Some(old_value);
            }
        }
        proof {
            self.lemma_absent(key@, p as int);
        }
        let mut entries: Vec<(String, String)> = Vec::new();
        std::mem::swap(&mut entries, &mut self.entries);
        entries.insert(p, (key, value));
        let ghost s2 = entries@.map_values(|e: (String, String)| (e.0@, e.1@));
        assert(s2 =~= s.insert(p as int, kv));
        proof {
            assert(sorted(s2)) by {
                assert forall|i: int, j: int| 0 <= i < j < s2.len() implies lex_lt(
                    #[trigger] s2[i].0,
                    #[trigger] s2[j].0,
                ) by {
                    if j < p {
                        assert(s2[i] == s[i] && s2[j] == s[j]);
                    } else if j == p {
                        assert(s2[i] == s[i]);
                    } else if i == p {
                        assert(s2[j] == s[j - 1]);
                        if j - 1 > p {
                            assert(lex_lt(s[p as int].0, s[j - 1].0));
                        }
                        lemma_lex_total(s[p as int].0, key@);
                        if j - 1 > p {
                            lemma_lex_trans(key@, s[p as int].0, s[j - 1].0);
                        }
                    } else if i < p {
                        assert(s2[i] == s[i] && s2[j] == s[j - 1]);
                        if i < j - 1 {
                        }
                    } else {
                        assert(s2[i] == s[i - 1] && s2[j] == s[j - 1]);
                    }
                }
            }
            lemma_table_map(s2);
            assert forall|k2: Seq<char>| table_map(s2).contains_key(k2) <==> table_map(
                s,
            ).insert(key@, value@).contains_key(k2) by {
                if has_key(s2, k2) {
                    let i = choose|i: int| 0 <= i < s2.len() && #[trigger] s2[i].0 == k2;
                    if i < p {
                        assert(s[i].0 == k2);
                    } else if i > p {
                        assert(s[i - 1].0 == k2);
                    }
                }
                if has_key(s, k2) {
                    let i = choose|i: int| 0 <= i < s.len() && #[trigger] s[i].0 == k2;
                    if i < p {
                        assert(s2[i].0 == k2);
                    } else {
                        assert(s2[i + 1].0 == k2);
                    }
                }
                if k2 == key@ {
                    assert(s2[p as int].0 == k2);
                }
            }
            assert forall|k2: Seq<char>| table_map(s2).contains_key(k2) implies table_map(s2)[k2]
                == table_map(s).insert(key@, value@)[k2] by {
                assert(has_key(s2, k2));
                let i = choose|i: int| 0 <= i < s2.len() && #[trigger] s2[i].0 == k2;
                assert(table_map(s2)[s2[i].0] == s2[i].1);
                if i < p {
                    assert(s2[i] == s[i]);
                    assert(table_map(s)[s[i].0] == s[i].1);
                } else if i > p {
                    assert(s2[i] == s[i - 1]);
                    assert(table_map(s)[s[i - 1].0] == s[i - 1].1);
                }
            }
            assert(table_map(s2) =~= table_map(s).insert(key@, value@));
        }
        self.entries = entries;
        None
    }

    /// Removes `key`; returns the value it had.
    pub fn remove(&mut self, key: &[char]) -> (r: Option<String>)
        ensures
            table_map(final(self).entries()) == table_map(old(self).entries()).remove(key@),
            table_map(old(self).entries()).contains_key(key@) ==> (r matches Some(v) && v@
                == table_map(old(self).entries())[key@]),
            !table_map(old(self).entries()).contains_key(key@) ==> r is None,
    {
        proof {
            use_type_invariant(&*self);
            lemma_table_map(self.entries());
        }
        let p = self.position(key);
        let ghost s = self.entries();
        if p < self.entries.len() {
            let k = chars_of(self.entries[p].0.as_str());
            if chars_eq(k.as_slice(), key) {
                assert(s[p as int].0 == key@);
                assert(has_key(s, key@));
                let mut entries: Vec<(String, String)> = Vec::new();
                std::mem::swap(&mut entries, &mut self.entries);
                let removed = entries.remove(p);
                let ghost s2 = entries@.map_values(|e: (String, String)| (e.0@, e.1@));
                assert(s2 =~= s.remove(p as int));
                proof {
                    assert(sorted(s2)) by {
                        assert forall|i: int, j: int| 0 <= i < j < s2.len() implies lex_lt(
                            #[trigger] s2[i].0,
                            #[trigger] s2[j].0,
                        ) by {
                            if j < p {
                                assert(s2[i] == s[i] && s2[j] == s[j]);
                            } else if i < p {
                                assert(s2[i] == s[i] && s2[j] == s[j + 1]);
                            } else {
                                assert(s2[i] == s[i + 1] && s2[j] == s[j + 1]);
                            }
                        }
                    }
                    lemma_table_map(s2);
                    assert forall|k2: Seq<char>| table_map(s2).contains_key(k2) <==> table_map(
                        s,
                    ).remove(key@).contains_key(k2) by {
                        if has_key(s2, k2) {
                            let i = choose|i: int| 0 <= i < s2.len() && #[trigger] s2[i].0 == k2;
                            if i < p {
                                assert(s[i].0 == k2);
                                assert(lex_lt(s[i].0, s[p as int].0));
                                lemma_lex_irreflexive(k2);
                            } else {
                                assert(s[i + 1].0 == k2);
                                assert(lex_lt(s[p as int].0, s[i + 1].0));
                                lemma_lex_irreflexive(k2);
                            }
                        }
                        if has_key(s, k2) && k2 != key@ {
                            let i = choose|i: int| 0 <= i < s.len() && #[trigger] s[i].0 == k2;
                            if i < p {
                                assert(s2[i].0 == k2);
                            } else {
                                assert(i != p);
                                assert(s2[i - 1].0 == k2);
                            }
                        }
                    }
                    assert forall|k2: Seq<char>| table_map(s2).contains_key(k2) implies table_map(
                        s2,
                    )[k2] == table_map(s).remove(key@)[k2] by {
                        assert(has_key(s2, k2));
                        let i = choose|i: int| 0 <= i < s2.len() && #[trigger] s2[i].0 == k2;
                        assert(table_map(s2)[s2[i].0] == s2[i].1);
                        if i < p {
                            assert(s2[i] == s[i]);
                            assert(table_map(s)[s[i].0] == s[i].1);
                        } else {
                            assert(s2[i] == s[i + 1]);
                            assert(table_map(s)[s[i + 1].0] == s[i + 1].1);
                        }
                    }
                    assert(table_map(s2) =~= table_map(s).remove(key@));
                }
                self.entries = entries;
                return Some(removed.1);
            }
            proof {
                self.lemma_absent(key@, p as int);
            }
        } else {
            proof {
                self.lemma_absent(key@, p as int);
            }
        }
        assert(table_map(s) =~= table_map(s).remove(key@));
        None
    }

    /// Number of entries.
    pub fn len(&self) -> (r: usize)
        ensures
            r == self.entries().len(),
            sorted(self.entries()),
    {
        proof {
            use_type_invariant(self);
        }
        self.entries.len()
    }

    /// The entry at `index`, in key order.
    pub fn entry(&self, index: usize) -> (r: (&String, &String))
        requires
            index < self.entries().len(),
        ensures
            r.0@ == self.entries()[index as int].0,
            r.1@ == self.entries()[index as int].1,
    {
        (&self.entries[index].0, &self.entries[index].1)
    }
}

} // verus!
