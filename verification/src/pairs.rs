//! Small maps from text keys to values, kept as vectors of pairs with distinct keys.
use vstd::prelude::*;
use crate::sessions::text_is;

verus! {

/// The pairs of a vector, keys and values taken by their views.
pub open spec fn pairs_view<T: View>(v: Seq<(String, T)>) -> Seq<(Seq<char>, T::V)> {
    Seq::new(v.len(), |i: int| (v[i].0@, v[i].1@))
}

pub open spec fn keys_unique<V>(s: Seq<(Seq<char>, V)>) -> bool {
    forall|i: int, j: int| 0 <= i < j < s.len() ==> #[trigger] s[i].0 != #[trigger] s[j].0
}

/// The map that the pairs describe, a later pair winning over an earlier one.
pub open spec fn assoc_map<V>(s: Seq<(Seq<char>, V)>) -> Map<Seq<char>, V>
    decreases s.len(),
{
    if s.len() == 0 {
        Map::empty()
    } else {
        assoc_map(s.drop_last()).insert(s.last().0, s.last().1)
    }
}

pub proof fn lemma_assoc_dom<V>(s: Seq<(Seq<char>, V)>, k: Seq<char>)
    ensures
        assoc_map(s).dom().contains(k) <==> exists|i: int| 0 <= i < s.len() && s[i].0 == k,
    decreases s.len(),
{
    if s.len() > 0 {
        lemma_assoc_dom(s.drop_last(), k);
        if assoc_map(s.drop_last()).dom().contains(k) {
            let i = choose|i: int| 0 <= i < s.drop_last().len() && s.drop_last()[i].0 == k;
            assert(s[i].0 == k);
        }
        if exists|i: int| 0 <= i < s.len() && s[i].0 == k {
            let i = choose|i: int| 0 <= i < s.len() && s[i].0 == k;
            if i < s.len() - 1 {
                assert(s.drop_last()[i].0 == k);
            }
        }
    }
}

pub proof fn lemma_assoc_value<V>(s: Seq<(Seq<char>, V)>, i: int)
    requires
        keys_unique(s),
        0 <= i < s.len(),
    ensures
        assoc_map(s).dom().contains(s[i].0),
        assoc_map(s)[s[i].0] == s[i].1,
    decreases s.len(),
{
    if i < s.len() - 1 {
        assert(s.drop_last()[i] == s[i]);
        assert(keys_unique(s.drop_last()));
        lemma_assoc_value(s.drop_last(), i);
        assert(s[i].0 != s[s.len() - 1].0);
    }
}

/// Index of the pair with the given key.
pub fn find_key<T: View>(v: &Vec<(String, T)>, key: &str) -> (r: Option<usize>)
    ensures
        match r {
            Some(i) => i < v@.len() && v@[i as int].0@ == key@,
            None => forall|i: int| 0 <= i < v@.len() ==> v@[i].0@ != key@,
        },
{
    let mut i: usize = 0;
    while i < v.len()
        invariant
            i <= v@.len(),
            forall|j: int| 0 <= j < i ==> v@[j].0@ != key@,
        decreases v.len() - i,
    {
        if text_is(&v[i].0, key) {
            return Some(i);
        }
        i = i + 1;
    }
    None
}

/// Sets the value of `key`, replacing the pair that has it.
pub fn assoc_set<T: View>(v: &mut Vec<(String, T)>, key: String, value: T)
    requires
        keys_unique(pairs_view(old(v)@)),
    ensures
        keys_unique(pairs_view(final(v)@)),
        assoc_map(pairs_view(final(v)@)) == assoc_map(pairs_view(old(v)@)).insert(key@, value@),
{
    let ghost before = pairs_view(v@);
    let ghost kv = key@;
    let ghost vv = value@;
    match find_key(v, key.as_str()) {
        Some(i) => {
            v.set(i, (key, value));
            proof {
                let after = pairs_view(v@);
                assert(after =~= before.update(i as int, (kv, vv)));
                assert(keys_unique(after)) by {
                    assert forall|a: int, b: int| 0 <= a < b < after.len() implies #[trigger] after[a].0
                        != #[trigger] after[b].0 by {
                        if a != i && b != i {
                            assert(before[a].0 != before[b].0);
                        } else if a == i {
                            assert(before[a].0 != before[b].0);
                        } else {
                            assert(before[a].0 != before[b].0);
                        }
                    }
                }
                let m = assoc_map(before).insert(kv, vv);
                assert forall|k: Seq<char>| #[trigger] m.dom().contains(k) <==> exists|j: int|
                    0 <= j < after.len() && after[j].0 == k by {
                    lemma_assoc_dom(before, k);
                    if k == kv {
                        assert(after[i as int].0 == k);
                    } else if m.dom().contains(k) {
                        let j = choose|j: int| 0 <= j < before.len() && before[j].0 == k;
                        assert(after[j].0 == k);
                    } else if exists|j: int| 0 <= j < after.len() && after[j].0 == k {
                        let j = choose|j: int| 0 <= j < after.len() && after[j].0 == k;
                        assert(before[j].0 == k);
                    }
                }
                assert forall|j: int| 0 <= j < after.len() implies m[#[trigger] after[j].0] == after[j].1 by {
                    if j != i {
                        lemma_assoc_value(before, j);
                        assert(before[i as int].0 == kv);
                        assert(before[j].0 != before[i as int].0);
                    }
                }
                lemma_assoc_ext_insert(before, after, m);
            }
        },
        None => {
            v.push((key, value));
            proof {
                let after = pairs_view(v@);
                assert(after =~= before.push((kv, vv)));
                assert(after.drop_last() =~= before);
                assert(keys_unique(after)) by {
                    assert forall|a: int, b: int| 0 <= a < b < after.len() implies #[trigger] after[a].0
                        != #[trigger] after[b].0 by {
                        if b < before.len() {
                            assert(before[a].0 != before[b].0);
                        } else {
                            assert(before[a].0 != kv);
                        }
                    }
                }
            }
        },
    }
}

proof fn lemma_assoc_ext_insert<V>(before: Seq<(Seq<char>, V)>, after: Seq<(Seq<char>, V)>, m: Map<Seq<char>, V>)
    requires
        keys_unique(after),
        forall|k: Seq<char>| #[trigger] m.dom().contains(k) <==> exists|i: int| 0 <= i < after.len() && after[i].0 == k,
        forall|i: int| 0 <= i < after.len() ==> m[#[trigger] after[i].0] == after[i].1,
    ensures
        assoc_map(after) == m,
{
    assert forall|k: Seq<char>| #[trigger] assoc_map(after).dom().contains(k) == m.dom().contains(k) by {
        lemma_assoc_dom(after, k);
    }
    assert forall|k: Seq<char>| #[trigger] assoc_map(after).dom().contains(k) implies assoc_map(after)[k] == m[k] by {
        lemma_assoc_dom(after, k);
        let i = choose|i: int| 0 <= i < after.len() && after[i].0 == k;
        lemma_assoc_value(after, i);
    }
    assert(assoc_map(after) =~= m);
}

/// Removes the pair with the given key, if there is one.
pub fn assoc_remove<T: View>(v: &mut Vec<(String, T)>, key: &str)
    requires
        keys_unique(pairs_view(old(v)@)),
    ensures
        keys_unique(pairs_view(final(v)@)),
        assoc_map(pairs_view(final(v)@)) == assoc_map(pairs_view(old(v)@)).remove(key@),
{
    let ghost before = pairs_view(v@);
    let ghost kv = key@;
    match find_key(v, key) {
        Some(i) => {
            v.remove(i);
            proof {
                let after = pairs_view(v@);
                assert(after =~= before.remove(i as int));
                assert(keys_unique(after)) by {
                    assert forall|a: int, b: int| 0 <= a < b < after.len() implies #[trigger] after[a].0
                        != #[trigger] after[b].0 by {
                        let a0 = if a < i { a } else { a + 1 };
                        let b0 = if b < i { b } else { b + 1 };
                        assert(after[a] == before[a0] && after[b] == before[b0]);
                        assert(before[a0].0 != before[b0].0);
                    }
                }
                let m = assoc_map(before).remove(kv);
                assert forall|k: Seq<char>| #[trigger] m.dom().contains(k) <==> exists|j: int|
                    0 <= j < after.len() && after[j].0 == k by {
                    lemma_assoc_dom(before, k);
                    if m.dom().contains(k) {
                        let j = choose|j: int| 0 <= j < before.len() && before[j].0 == k;
                        assert(j != i);
                        let j2 = if j < i { j } else { j - 1 };
                        assert(after[j2].0 == k);
                    }
                    if exists|j: int| 0 <= j < after.len() && after[j].0 == k {
                        let j = choose|j: int| 0 <= j < after.len() && after[j].0 == k;
                        let j0 = if j < i { j } else { j + 1 };
                        assert(before[j0].0 == k);
                        assert(before[j0].0 != before[i as int].0);
                    }
                }
                assert forall|j: int| 0 <= j < after.len() implies m[#[trigger] after[j].0] == after[j].1 by {
                    let j0 = if j < i { j } else { j + 1 };
                    assert(after[j] == before[j0]);
                    lemma_assoc_value(before, j0);
                    assert(before[j0].0 != before[i as int].0);
                    assert(before[i as int].0 == kv);
                }
                lemma_assoc_ext_insert(before, after, m);
            }
        },
        None => {
            proof {
                lemma_assoc_dom(before, kv);
                assert(assoc_map(before).remove(kv) =~= assoc_map(before));
            }
        },
    }
}

} // verus!
