//! Tables keyed by text: a list of entries in which no key occurs twice,
//! read as a map from keys to values.

use vstd::prelude::*;
use crate::text::same_text;

verus! {

/// Whether `i` is where `key` sits among `entries`: the first entry with
/// that key.
pub open spec fn key_at<V>(entries: Seq<(String, V)>, key: Seq<char>, i: int) -> bool {
    &&& 0 <= i < entries.len()
    &&& entries[i].0@ == key
    &&& forall|k: int| 0 <= k < i ==> (#[trigger] entries[k]).0@ != key
}

/// Whether some entry has `key`.
pub open spec fn has_key<V>(entries: Seq<(String, V)>, key: Seq<char>) -> bool {
    exists|i: int| 0 <= i < entries.len() && (#[trigger] entries[i]).0@ == key
}

/// No key occurs twice.
pub open spec fn distinct_keys<V>(entries: Seq<(String, V)>) -> bool {
    forall|i: int, j: int| 0 <= i < j < entries.len() ==> (#[trigger] entries[i]).0@ != (#[trigger] entries[j]).0@
}

/// The value under `key`: that of the first entry with it.
pub open spec fn lookup<V>(entries: Seq<(String, V)>, key: Seq<char>) -> V
    recommends
        has_key(entries, key),
{
    entries[choose|i: int| key_at(entries, key, i)].1
}

/// The entries read as a map from keys to values.
pub open spec fn as_map<V>(entries: Seq<(String, V)>) -> Map<Seq<char>, V> {
    Map::new(|k: Seq<char>| has_key(entries, k), |k: Seq<char>| lookup(entries, k))
}

/// A key that some entry has sits at exactly one place.
pub proof fn lemma_key_at<V>(entries: Seq<(String, V)>, key: Seq<char>, i: int)
    requires
        key_at(entries, key, i),
    ensures
        has_key(entries, key),
        lookup(entries, key) == entries[i].1,
{
    let j = choose|j: int| key_at(entries, key, j);
    assert(key_at(entries, key, j));
    if j < i {
        assert(entries[j].0@ != key);
    } else if i < j {
        assert(entries[i].0@ != key);
    }
}

/// A key that some entry has has a first place.
pub proof fn lemma_has_key_first<V>(entries: Seq<(String, V)>, key: Seq<char>)
    requires
        has_key(entries, key),
    ensures
        exists|i: int| key_at(entries, key, i),
    decreases entries.len(),
{
    if entries[0].0@ == key {
        assert(key_at(entries, key, 0));
    } else {
        let rest = entries.drop_first();
        let w = choose|w: int| 0 <= w < entries.len() && (#[trigger] entries[w]).0@ == key;
        assert(rest[w - 1] == entries[w]);
        lemma_has_key_first(rest, key);
        let j = choose|j: int| key_at(rest, key, j);
        assert forall|k: int| 0 <= k < j + 1 implies (#[trigger] entries[k]).0@ != key by {
            if k > 0 {
                assert(entries[k] == rest[k - 1]);
            }
        }
        assert(key_at(entries, key, j + 1));
    }
}

/// Where keys are distinct, any entry with `key` is where it sits.
pub proof fn lemma_distinct_key_at<V>(entries: Seq<(String, V)>, key: Seq<char>, w: int)
    requires
        distinct_keys(entries),
        0 <= w < entries.len(),
        entries[w].0@ == key,
    ensures
        key_at(entries, key, w),
{
    assert forall|k: int| 0 <= k < w implies (#[trigger] entries[k]).0@ != key by {
        assert(entries[k].0@ != entries[w].0@);
    }
}

/// Where `key` sits among `entries`, if anywhere.
pub fn position<V>(entries: &Vec<(String, V)>, key: &str) -> (r: Option<usize>)
    ensures
        match r {
            Some(i) => key_at(entries@, key@, i as int),
            None => !has_key(entries@, key@),
        },
{
    let mut i: usize = 0;
    while i < entries.len()
        invariant
            0 <= i <= entries.len(),
            forall|k: int| 0 <= k < i ==> (#[trigger] entries@[k]).0@ != key@,
        decreases entries.len() - i,
    {
        if same_text(entries[i].0.as_str(), key) {
            return Some(i);
        }
        i += 1;
    }
    None
}

/// Writing `value` under `key` into entries whose keys are distinct: the
/// value replaces the old one under that key, or joins at the end.
pub fn put<V>(entries: &mut Vec<(String, V)>, key: String, value: V)
    requires
        distinct_keys(old(entries)@),
    ensures
        distinct_keys(final(entries)@),
        as_map(final(entries)@) == as_map(old(entries)@).insert(key@, value),
{
    let ghost before = entries@;
    let ghost k = key@;
    match position(entries, key.as_str()) {
        Some(i) => {
            entries.set(i, (key, value));
            proof {
                let after = entries@;
                assert forall|a: int, b: int| 0 <= a < b < after.len() implies
                    (#[trigger] after[a]).0@ != (#[trigger] after[b]).0@ by {
                    assert(before[a].0@ != before[b].0@);
                }
                assert(key_at(after, k, i as int));
                lemma_key_at(after, k, i as int);
                assert forall|q: Seq<char>| #[trigger] has_key(after, q) == has_key(before, q) by {
                    if has_key(before, q) {
                        let w = choose|w: int| 0 <= w < before.len() && (#[trigger] before[w]).0@ == q;
                        assert(after[w].0@ == q);
                    }
                    if has_key(after, q) {
                        let w = choose|w: int| 0 <= w < after.len() && (#[trigger] after[w]).0@ == q;
                        assert(before[w].0@ == q);
                    }
                }
                assert forall|q: Seq<char>| q != k && #[trigger] has_key(after, q) implies
                    lookup(after, q) == lookup(before, q) by {
                    let w = choose|w: int| 0 <= w < after.len() && (#[trigger] after[w]).0@ == q;
                    lemma_distinct_key_at(after, q, w);
                    lemma_distinct_key_at(before, q, w);
                    lemma_key_at(before, q, w);
                    lemma_key_at(after, q, w);
                }
                assert(as_map(after) =~= as_map(before).insert(k, value));
            }
        },
        None => {
            entries.push((key, value));
            proof {
                let after = entries@;
                let n = before.len() as int;
                assert forall|a: int, b: int| 0 <= a < b < after.len() implies
                    (#[trigger] after[a]).0@ != (#[trigger] after[b]).0@ by {
                    if b < n {
                        assert(before[a].0@ != before[b].0@);
                    } else {
                        assert(before[a] == after[a]);
                    }
                }
                assert(key_at(after, k, n));
                lemma_key_at(after, k, n);
                assert forall|q: Seq<char>| q != k implies #[trigger] has_key(after, q) == has_key(before, q) by {
                    if has_key(before, q) {
                        let w = choose|w: int| 0 <= w < before.len() && (#[trigger] before[w]).0@ == q;
                        assert(after[w].0@ == q);
                    }
                    if has_key(after, q) {
                        let w = choose|w: int| 0 <= w < after.len() && (#[trigger] after[w]).0@ == q;
                        assert(before[w].0@ == q);
                    }
                }
                assert forall|q: Seq<char>| q != k && #[trigger] has_key(after, q) implies
                    lookup(after, q) == lookup(before, q) by {
                    let w = choose|w: int| 0 <= w < after.len() && (#[trigger] after[w]).0@ == q;
                    lemma_distinct_key_at(after, q, w);
                    lemma_distinct_key_at(before, q, w);
                    lemma_key_at(before, q, w);
                    lemma_key_at(after, q, w);
                }
                assert(as_map(after) =~= as_map(before).insert(k, value));
            }
        },
    }
}


/// The value under `key`, if some entry has it.
pub fn get_entry<'a, V>(entries: &'a Vec<(String, V)>, key: &str) -> (r: Option<&'a V>)
    ensures
        has_key(entries@, key@) ==> r == Some(&lookup(entries@, key@)),
        !has_key(entries@, key@) ==> r is None,
{
    match position(entries, key) {
        Some(i) => {
            proof {
                lemma_key_at(entries@, key@, i as int);
            }
            Some(&entries[i].1)
        },
        None => None,
    }
}

} // verus!
