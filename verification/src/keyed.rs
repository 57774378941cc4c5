//! Lists of `(key, value)` pairs kept in strictly increasing key order: the
//! ordered maps of the ledger.
use vstd::prelude::*;
use crate::text::{seq_less, str_less, lemma_seq_less_irreflexive, lemma_seq_less_total,
    lemma_seq_less_transitive};

verus! {

/// Keys strictly increase along the list.
pub open spec fn sorted_keys<V>(s: Seq<(String, V)>) -> bool {
    forall|i: int, j: int| 0 <= i < j < s.len() ==> seq_less(#[trigger] s[i].0@, #[trigger] s[j].0@)
}

/// Some entry has key `k`.
pub open spec fn has_key<V>(s: Seq<(String, V)>, k: Seq<char>) -> bool {
    exists|i: int| 0 <= i < s.len() && #[trigger] s[i].0@ == k
}

/// The index of the entry with key `k`, when there is one.
pub open spec fn key_index<V>(s: Seq<(String, V)>, k: Seq<char>) -> int {
    choose|i: int| 0 <= i < s.len() && #[trigger] s[i].0@ == k
}

/// The list read as a map from keys to values.
pub open spec fn entries_map<V>(s: Seq<(String, V)>) -> Map<Seq<char>, V> {
    Map::new(|k: Seq<char>| has_key(s, k), |k: Seq<char>| s[key_index(s, k)].1)
}

/// Two entries of a sorted list have different keys.
pub proof fn lemma_sorted_distinct<V>(s: Seq<(String, V)>, i: int, j: int)
    requires
        sorted_keys(s),
        0 <= i < s.len(),
        0 <= j < s.len(),
        i != j,
    ensures
        s[i].0@ != s[j].0@,
{
    if i < j {
        assert(seq_less(s[i].0@, s[j].0@));
    } else {
        assert(seq_less(s[j].0@, s[i].0@));
    }
    lemma_seq_less_irreflexive(s[i].0@);
}

/// Every entry of a sorted list is what the map gives for its key.
pub proof fn lemma_entry_in_map<V>(s: Seq<(String, V)>, i: int)
    requires
        sorted_keys(s),
        0 <= i < s.len(),
    ensures
        entries_map(s).contains_key(s[i].0@),
        entries_map(s)[s[i].0@] == s[i].1,
        key_index(s, s[i].0@) == i,
{
    assert(has_key(s, s[i].0@));
    let j = key_index(s, s[i].0@);
    if j != i {
        lemma_sorted_distinct(s, i, j);
    }
}

/// Replacing the value of one entry replaces it in the map.
pub proof fn lemma_update_value<V>(s: Seq<(String, V)>, i: int, v: V)
    requires
        sorted_keys(s),
        0 <= i < s.len(),
    ensures
        sorted_keys(s.update(i, (s[i].0, v))),
        entries_map(s.update(i, (s[i].0, v))) == entries_map(s).insert(s[i].0@, v),
{
    let t = s.update(i, (s[i].0, v));
    assert(sorted_keys(t)) by {
        assert forall|a: int, b: int| 0 <= a < b < t.len() implies seq_less(#[trigger] t[a].0@, #[trigger] t[b].0@) by {
            assert(t[a].0@ == s[a].0@);
            assert(t[b].0@ == s[b].0@);
        }
    }
    let m = entries_map(s).insert(s[i].0@, v);
    assert forall|k: Seq<char>| #[trigger] entries_map(t).contains_key(k) <==> m.contains_key(k) by {
        if has_key(t, k) {
            let j = key_index(t, k);
            assert(s[j].0@ == k);
        }
        if has_key(s, k) {
            let j = key_index(s, k);
            assert(t[j].0@ == k);
        }
        if k == s[i].0@ {
            assert(t[i].0@ == k);
        }
    }
    assert forall|k: Seq<char>| #[trigger] entries_map(t).contains_key(k) implies entries_map(t)[k] == m[k] by {
        let j = key_index(t, k);
        lemma_entry_in_map(t, j);
        if j == i {
        } else {
            assert(s[j].0@ == k);
            lemma_entry_in_map(s, j);
            lemma_sorted_distinct(s, i, j);
        }
    }
    assert(entries_map(t) =~= m);
}

/// Inserting an entry with a new key at its place adds it to the map.
pub proof fn lemma_insert_entry<V>(s: Seq<(String, V)>, pos: int, key: String, v: V)
    requires
        sorted_keys(s),
        !has_key(s, key@),
        0 <= pos <= s.len(),
        forall|j: int| 0 <= j < pos ==> seq_less(#[trigger] s[j].0@, key@),
        forall|j: int| pos <= j < s.len() ==> seq_less(key@, #[trigger] s[j].0@),
    ensures
        sorted_keys(s.insert(pos, (key, v))),
        entries_map(s.insert(pos, (key, v))) == entries_map(s).insert(key@, v),
        s.insert(pos, (key, v)).len() == s.len() + 1,
{
    let t = s.insert(pos, (key, v));
    assert(sorted_keys(t)) by {
        assert forall|a: int, b: int| 0 <= a < b < t.len() implies seq_less(#[trigger] t[a].0@, #[trigger] t[b].0@) by {
            if b < pos {
                assert(t[a] == s[a] && t[b] == s[b]);
            } else if b == pos {
                assert(t[a] == s[a]);
            } else if a < pos {
                assert(t[a] == s[a] && t[b] == s[b - 1]);
                assert(seq_less(key@, s[b - 1].0@));
                lemma_seq_less_transitive(s[a].0@, key@, s[b - 1].0@);
            } else if a == pos {
                assert(t[b] == s[b - 1]);
            } else {
                assert(t[a] == s[a - 1] && t[b] == s[b - 1]);
            }
        }
    }
    let m = entries_map(s).insert(key@, v);
    assert forall|k: Seq<char>| #[trigger] entries_map(t).contains_key(k) <==> m.contains_key(k) by {
        if has_key(t, k) {
            let j = key_index(t, k);
            if j < pos {
                assert(s[j].0@ == k);
            } else if j > pos {
                assert(s[j - 1].0@ == k);
            }
        }
        if has_key(s, k) {
            let j = key_index(s, k);
            if j < pos {
                assert(t[j].0@ == k);
            } else {
                assert(t[j + 1].0@ == k);
            }
        }
        if k == key@ {
            assert(t[pos].0@ == k);
        }
    }
    assert forall|k: Seq<char>| #[trigger] entries_map(t).contains_key(k) implies entries_map(t)[k] == m[k] by {
        let j = key_index(t, k);
        lemma_entry_in_map(t, j);
        if j < pos {
            assert(t[j] == s[j]);
            lemma_entry_in_map(s, j);
        } else if j > pos {
            assert(t[j] == s[j - 1]);
            lemma_entry_in_map(s, j - 1);
        }
    }
    assert(entries_map(t) =~= m);
}

/// A sorted list has as many entries as its map has keys.
pub proof fn lemma_map_len<V>(s: Seq<(String, V)>)
    requires
        sorted_keys(s),
    ensures
        entries_map(s).dom().finite(),
        entries_map(s).dom().len() == s.len(),
    decreases s.len(),
{
    if s.len() == 0 {
        assert(entries_map(s).dom() =~= Set::empty());
    } else {
        let p = s.drop_last();
        let last = s[s.len() - 1];
        assert(sorted_keys(p));
        lemma_map_len(p);
        assert(!has_key(p, last.0@)) by {
            if has_key(p, last.0@) {
                let j = key_index(p, last.0@);
                lemma_sorted_distinct(s, j, s.len() - 1);
            }
        }
        assert(entries_map(s).dom() =~= entries_map(p).dom().insert(last.0@)) by {
            assert forall|k: Seq<char>| #[trigger] entries_map(s).dom().contains(k) <==> entries_map(p).dom().insert(last.0@).contains(k) by {
                if has_key(s, k) {
                    let j = key_index(s, k);
                    if j < s.len() - 1 {
                        assert(p[j].0@ == k);
                    }
                }
                if has_key(p, k) {
                    let j = key_index(p, k);
                    assert(s[j].0@ == k);
                }
                if k == last.0@ {
                    assert(s[s.len() - 1].0@ == k);
                }
            }
        }
    }
}

/// Whether the keys of `v` strictly increase.
pub fn is_sorted<V>(v: &Vec<(String, V)>) -> (r: bool)
    ensures
        r == sorted_keys(v@),
{
    let n = v.len();
    if n == 0 {
        return true;
    }
    let mut k: usize = 1;
    while k < n
        invariant
            n == v@.len(),
            1 <= k <= n,
            forall|i: int, j: int| 0 <= i < j < k ==> seq_less(#[trigger] v@[i].0@, #[trigger] v@[j].0@),
        decreases n - k,
    {
        if !str_less(v[k - 1].0.as_str(), v[k].0.as_str()) {
            assert(!sorted_keys(v@)) by {
                if sorted_keys(v@) {
                    assert(seq_less(v@[k - 1].0@, v@[k as int].0@));
                }
            }
            return false;
        }
        assert forall|i: int, j: int| 0 <= i < j < k + 1 implies seq_less(#[trigger] v@[i].0@, #[trigger] v@[j].0@) by {
            if j == k && i < k - 1 {
                assert(seq_less(v@[i].0@, v@[k - 1].0@));
                lemma_seq_less_transitive(v@[i].0@, v@[k - 1].0@, v@[j].0@);
            }
        }
        k = k + 1;
    }
    true
}

/// The index of the entry whose key is `key`, if any.
pub fn find_key<V>(v: &Vec<(String, V)>, key: &String) -> (r: Option<usize>)
    ensures
        match r {
            Some(i) => i < v@.len() && v@[i as int].0@ == key@,
            None => !has_key(v@, key@),
        },
{
    let mut i: usize = 0;
    while i < v.len()
        invariant
            i <= v@.len(),
            forall|j: int| 0 <= j < i ==> #[trigger] v@[j].0@ != key@,
        decreases v@.len() - i,
    {
        if v[i].0 == *key {
            return Some(i);
        }
        i = i + 1;
    }
    None
}

/// Inserts `(key, val)` at its place; `key` is new.
pub fn insert_sorted<V>(v: &mut Vec<(String, V)>, key: String, val: V) -> (pos: usize)
    requires
        sorted_keys(old(v)@),
        !has_key(old(v)@, key@),
    ensures
        pos <= old(v)@.len(),
        final(v)@ == old(v)@.insert(pos as int, (key, val)),
        sorted_keys(final(v)@),
        entries_map(final(v)@) == entries_map(old(v)@).insert(key@, val),
        final(v)@.len() == old(v)@.len() + 1,
{
    let mut i: usize = 0;
    while i < v.len() && str_less(v[i].0.as_str(), key.as_str())
        invariant
            i <= v@.len(),
            forall|j: int| 0 <= j < i ==> seq_less(#[trigger] v@[j].0@, key@),
        decreases v@.len() - i,
    {
        i = i + 1;
    }
    proof {
        let s = v@;
        assert forall|j: int| i <= j < s.len() implies seq_less(key@, #[trigger] s[j].0@) by {
            assert(!seq_less(s[i as int].0@, key@));
            assert(s[i as int].0@ != key@);
            lemma_seq_less_total(s[i as int].0@, key@);
            if j > i {
                lemma_seq_less_transitive(key@, s[i as int].0@, s[j].0@);
            }
        }
        lemma_insert_entry(s, i as int, key, val);
    }
    v.insert(i, (key, val));
    i
}

} // verus!

verus! {

/// The list with each key read as its text.
pub open spec fn key_views<V>(s: Seq<(String, V)>) -> Seq<(Seq<char>, V)> {
    s.map_values(|e: (String, V)| (e.0@, e.1))
}

/// Keys strictly increase along a list of texts.
pub open spec fn view_sorted<V>(s: Seq<(Seq<char>, V)>) -> bool {
    forall|i: int, j: int| 0 <= i < j < s.len() ==> seq_less(#[trigger] s[i].0, #[trigger] s[j].0)
}

/// Some entry of a list of texts has key `k`.
pub open spec fn view_has_key<V>(s: Seq<(Seq<char>, V)>, k: Seq<char>) -> bool {
    exists|i: int| 0 <= i < s.len() && #[trigger] s[i].0 == k
}

/// A list of texts read as a map.
pub open spec fn view_map<V>(s: Seq<(Seq<char>, V)>) -> Map<Seq<char>, V> {
    Map::new(
        |k: Seq<char>| view_has_key(s, k),
        |k: Seq<char>| s[choose|i: int| 0 <= i < s.len() && #[trigger] s[i].0 == k].1,
    )
}

/// The entries of `m` in increasing key order.
pub open spec fn sorted_listing<V>(m: Map<Seq<char>, V>) -> Seq<(Seq<char>, V)> {
    choose|s: Seq<(Seq<char>, V)>| view_sorted(s) && view_map(s) == m
}

/// Every entry of a sorted list of texts is what its map gives for its key.
pub proof fn lemma_view_entry<V>(s: Seq<(Seq<char>, V)>, i: int)
    requires
        view_sorted(s),
        0 <= i < s.len(),
    ensures
        view_map(s).contains_key(s[i].0),
        view_map(s)[s[i].0] == s[i].1,
{
    assert(view_has_key(s, s[i].0));
    let j = choose|j: int| 0 <= j < s.len() && #[trigger] s[j].0 == s[i].0;
    if j != i {
        if i < j {
            assert(seq_less(s[i].0, s[j].0));
        } else {
            assert(seq_less(s[j].0, s[i].0));
        }
        lemma_seq_less_irreflexive(s[i].0);
    }
}

proof fn lemma_view_drop_first<V>(s: Seq<(Seq<char>, V)>)
    requires
        view_sorted(s),
        s.len() > 0,
    ensures
        view_sorted(s.drop_first()),
        view_map(s.drop_first()) == view_map(s).remove(s[0].0),
{
    let t = s.drop_first();
    assert(view_sorted(t)) by {
        assert forall|a: int, b: int| 0 <= a < b < t.len() implies seq_less(#[trigger] t[a].0, #[trigger] t[b].0) by {
            assert(t[a] == s[a + 1] && t[b] == s[b + 1]);
        }
    }
    let m = view_map(s).remove(s[0].0);
    assert forall|k: Seq<char>| #[trigger] view_map(t).contains_key(k) <==> m.contains_key(k) by {
        if view_has_key(t, k) {
            let j = choose|j: int| 0 <= j < t.len() && #[trigger] t[j].0 == k;
            assert(s[j + 1].0 == k);
            assert(seq_less(s[0].0, s[j + 1].0));
            if k == s[0].0 {
                lemma_seq_less_irreflexive(k);
            }
        }
        if view_has_key(s, k) && k != s[0].0 {
            let j = choose|j: int| 0 <= j < s.len() && #[trigger] s[j].0 == k;
            assert(j != 0);
            assert(t[j - 1].0 == k);
        }
    }
    assert forall|k: Seq<char>| #[trigger] view_map(t).contains_key(k) implies view_map(t)[k] == m[k] by {
        let j = choose|j: int| 0 <= j < t.len() && #[trigger] t[j].0 == k;
        lemma_view_entry(t, j);
        assert(t[j] == s[j + 1]);
        lemma_view_entry(s, j + 1);
    }
    assert(view_map(t) =~= m);
}

/// Two lists in increasing key order that give the same map are the same.
pub proof fn lemma_listing_unique<V>(s1: Seq<(Seq<char>, V)>, s2: Seq<(Seq<char>, V)>)
    requires
        view_sorted(s1),
        view_sorted(s2),
        view_map(s1) == view_map(s2),
    ensures
        s1 == s2,
    decreases s1.len(),
{
    if s1.len() == 0 {
        if s2.len() > 0 {
            lemma_view_entry(s2, 0);
            assert(view_map(s1).contains_key(s2[0].0));
        }
        assert(s1 =~= s2);
    } else {
        lemma_view_entry(s1, 0);
        let k1 = s1[0].0;
        assert(view_map(s2).contains_key(k1));
        let j = choose|j: int| 0 <= j < s2.len() && #[trigger] s2[j].0 == k1;
        lemma_view_entry(s2, 0);
        let k2 = s2[0].0;
        assert(view_map(s1).contains_key(k2));
        let i = choose|i: int| 0 <= i < s1.len() && #[trigger] s1[i].0 == k2;
        if j > 0 {
            assert(seq_less(s2[0].0, s2[j].0));
            if i > 0 {
                assert(seq_less(s1[0].0, s1[i].0));
                lemma_seq_less_transitive(k1, k2, k1);
            }
            lemma_seq_less_irreflexive(k1);
        }
        assert(k1 == k2);
        assert(s1[0] == s2[0]);
        lemma_view_drop_first(s1);
        lemma_view_drop_first(s2);
        lemma_listing_unique(s1.drop_first(), s2.drop_first());
        assert(s1 =~= seq![s1[0]] + s1.drop_first());
        assert(s2 =~= seq![s2[0]] + s2.drop_first());
    }
}

/// A sorted list, read by text, is the sorted listing of its map.
pub proof fn lemma_key_views_listing<V>(s: Seq<(String, V)>)
    requires
        sorted_keys(s),
    ensures
        view_sorted(key_views(s)),
        view_map(key_views(s)) == entries_map(s),
        sorted_listing(entries_map(s)) == key_views(s),
{
    let t = key_views(s);
    assert(view_sorted(t));
    assert forall|k: Seq<char>| #[trigger] view_map(t).contains_key(k) <==> entries_map(s).contains_key(k) by {
        if view_has_key(t, k) {
            let j = choose|j: int| 0 <= j < t.len() && #[trigger] t[j].0 == k;
            assert(s[j].0@ == k);
        }
        if has_key(s, k) {
            let j = key_index(s, k);
            assert(t[j].0 == k);
        }
    }
    assert forall|k: Seq<char>| #[trigger] view_map(t).contains_key(k) implies view_map(t)[k] == entries_map(s)[k] by {
        let j = choose|j: int| 0 <= j < t.len() && #[trigger] t[j].0 == k;
        lemma_view_entry(t, j);
        lemma_entry_in_map(s, j);
    }
    assert(view_map(t) =~= entries_map(s));
    let c = sorted_listing(entries_map(s));
    assert(view_sorted(c) && view_map(c) == entries_map(s));
    lemma_listing_unique(c, t);
}

} // verus!
