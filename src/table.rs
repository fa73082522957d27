//! Association lists from names to qualified names, keys kept unique.
use vstd::prelude::*;

use crate::names::same_text;

verus! {

/// Whether no two entries share a key.
pub open spec fn keys_unique(s: Seq<(String, String)>) -> bool {
    forall|i: int, j: int| 0 <= i < j < s.len() ==> s[i].0@ != s[j].0@
}

/// The map that an association list stands for.
pub open spec fn table_map(s: Seq<(String, String)>) -> Map<Seq<char>, Seq<char>>
    decreases s.len(),
{
    if s.len() == 0 {
        Map::empty()
    } else {
        table_map(s.drop_last()).insert(s.last().0@, s.last().1@)
    }
}

/// What the map of an association list with unique keys holds.
pub proof fn lemma_table_map(s: Seq<(String, String)>)
    requires
        keys_unique(s),
    ensures
        table_map(s).dom().finite(),
        table_map(s).dom().len() == s.len(),
        forall|k: Seq<char>| #[trigger]
            table_map(s).contains_key(k) <==> exists|i: int| 0 <= i < s.len() && s[i].0@ == k,
        forall|i: int| 0 <= i < s.len() ==> #[trigger] table_map(s)[s[i].0@] == s[i].1@,
    decreases s.len(),
{
    if s.len() > 0 {
        let t = s.drop_last();
        assert(keys_unique(t));
        lemma_table_map(t);
        assert(!table_map(t).contains_key(s.last().0@)) by {
            if table_map(t).contains_key(s.last().0@) {
                let i = choose|i: int| 0 <= i < t.len() && t[i].0@ == s.last().0@;
                assert(s[i].0@ == s[s.len() - 1].0@);
            }
        }
        assert forall|k: Seq<char>| #[trigger]
            table_map(s).contains_key(k) <==> exists|i: int| 0 <= i < s.len() && s[i].0@ == k by {
            if table_map(t).contains_key(k) {
                let i = choose|i: int| 0 <= i < t.len() && t[i].0@ == k;
                assert(s[i].0@ == k);
            }
            if exists|i: int| 0 <= i < s.len() && s[i].0@ == k {
                let i = choose|i: int| 0 <= i < s.len() && s[i].0@ == k;
                if i < s.len() - 1 {
                    assert(t[i].0@ == k);
                }
            }
        }
        assert forall|i: int| 0 <= i < s.len() implies #[trigger] table_map(s)[s[i].0@]
            == s[i].1@ by {
            if i < s.len() - 1 {
                assert(t[i] == s[i]);
            }
        }
    }
}

/// The position of the entry with key `k`.
pub fn table_find(v: &Vec<(String, String)>, k: &str) -> (r: Option<usize>)
    ensures
        match r {
            Some(i) => i < v@.len() && v@[i as int].0@ == k@,
            None => forall|i: int| 0 <= i < v@.len() ==> v@[i].0@ != k@,
        },
{
    let mut i: usize = 0;
    while i < v.len()
        invariant
            i <= v@.len(),
            forall|j: int| 0 <= j < i ==> v@[j].0@ != k@,
        decreases v@.len() - i,
    {
        if same_text(v[i].0.as_str(), k) {
            return Some(i);
        }
        i = i + 1;
    }
    None
}

/// The value under key `k`.
pub fn table_get<'a>(v: &'a Vec<(String, String)>, k: &str) -> (r: Option<&'a String>)
    requires
        keys_unique(v@),
    ensures
        match r {
            Some(q) => table_map(v@).contains_key(k@) && table_map(v@)[k@] == q@,
            None => !table_map(v@).contains_key(k@),
        },
{
    proof {
        lemma_table_map(v@);
    }
    match table_find(v, k) {
        Some(i) => Some(&v[i].1),
        None => None,
    }
}

/// Sets key `k` to `val`, replacing any value it had.
pub fn table_put(v: &mut Vec<(String, String)>, k: String, val: String)
    requires
        keys_unique(old(v)@),
    ensures
        keys_unique(final(v)@),
        table_map(final(v)@) == table_map(old(v)@).insert(k@, val@),
{
    proof {
        lemma_table_map(v@);
    }
    match table_find(v, k.as_str()) {
        Some(i) => {
            let ghost before = v@;
            v.set(i, (k, val));
            proof {
                lemma_table_map(v@);
                assert(table_map(v@) =~= table_map(before).insert(k@, val@)) by {
                    assert forall|key: Seq<char>| #[trigger]
                        table_map(v@).contains_key(key) implies table_map(before).insert(
                        k@,
                        val@,
                    ).contains_key(key) by {
                        let j = choose|j: int| 0 <= j < v@.len() && v@[j].0@ == key;
                        if j != i {
                            assert(before[j] == v@[j]);
                        }
                    }
                    assert forall|key: Seq<char>| #[trigger]
                        table_map(before).insert(k@, val@).contains_key(key) implies table_map(
                        v@,
                    ).contains_key(key) && table_map(v@)[key] == table_map(before).insert(
                        k@,
                        val@,
                    )[key] by {
                        if key == k@ {
                            assert(v@[i as int].0@ == key);
                        } else {
                            let j = choose|j: int| 0 <= j < before.len() && before[j].0@ == key;
                            assert(v@[j] == before[j]);
                        }
                    }
                }
            }
        },
        None => {
            let ghost before = v@;
            v.push((k, val));
            proof {
                assert(v@.drop_last() =~= before);
            }
        },
    }
}

} // verus!
