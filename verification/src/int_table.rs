//! Listings of maps from integers to strings, in increasing key order.

use vstd::prelude::*;

verus! {

broadcast use vstd::string::group_string_axioms;

/// Entries in strictly increasing key order.
pub open spec fn int_sorted(s: Seq<(u64, Seq<char>)>) -> bool {
    forall|i: int, j: int| 0 <= i < j < s.len() ==> #[trigger] s[i].0 < #[trigger] s[j].0
}

/// `k` is the key of some entry.
pub open spec fn int_has_key(s: Seq<(u64, Seq<char>)>, k: u64) -> bool {
    exists|i: int| 0 <= i < s.len() && #[trigger] s[i].0 == k
}

/// The entries as a map.
pub open spec fn int_table_map(s: Seq<(u64, Seq<char>)>) -> Map<u64, Seq<char>>
    decreases s.len(),
{
    if s.len() == 0 {
        Map::empty()
    } else {
        int_table_map(s.drop_first()).insert(s[0].0, s[0].1)
    }
}

/// For sorted entries, the map holds each key with its entry's value.
pub proof fn lemma_int_table_map(s: Seq<(u64, Seq<char>)>)
    requires
        int_sorted(s),
    ensures
        forall|k: u64| int_table_map(s).contains_key(k) <==> int_has_key(s, k),
        forall|i: int| 0 <= i < s.len() ==> int_table_map(s)[#[trigger] s[i].0] == s[i].1,
    decreases s.len(),
{
    if s.len() > 0 {
        let t = s.drop_first();
        assert(int_sorted(t)) by {
            assert forall|i: int, j: int| 0 <= i < j < t.len() implies (#[trigger] t[i].0 < #[trigger] t[j].0) by {
                assert(s[i + 1] == t[i] && s[j + 1] == t[j]);
            }
        }
        lemma_int_table_map(t);
        assert forall|k: u64| int_table_map(s).contains_key(k) <==> int_has_key(s, k) by {
            if int_has_key(s, k) {
                let i = choose|i: int| 0 <= i < s.len() && #[trigger] s[i].0 == k;
                if i > 0 {
                    assert(t[i - 1].0 == k);
                }
            }
            if int_has_key(t, k) {
                let i = choose|i: int| 0 <= i < t.len() && #[trigger] t[i].0 == k;
                assert(s[i + 1].0 == k);
            }
        }
        assert forall|i: int| 0 <= i < s.len() implies int_table_map(s)[#[trigger] s[i].0] == s[i].1 by {
            if i > 0 {
                assert(t[i - 1] == s[i]);
                assert((s[0].0 < s[i].0));
            }
        }
    }
}

} // verus!
