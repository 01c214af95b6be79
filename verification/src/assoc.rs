//! Lists of values keyed by text, where no key occurs twice, read as maps;
//! and lists of texts without repeats, read as sets.

use vstd::prelude::*;
use crate::text::{str_eq, texts};

verus! {

/// The keys of a keyed list, in order.
pub open spec fn assoc_keys<V>(s: Seq<(String, V)>) -> Seq<Seq<char>> {
    s.map_values(|e: (String, V)| e.0@)
}

/// No key occurs twice.
pub open spec fn assoc_wf<V>(s: Seq<(String, V)>) -> bool {
    forall|i: int, j: int| 0 <= i < j < s.len() ==> s[i].0@ != s[j].0@
}

/// The values by key.
pub open spec fn assoc_map<V>(s: Seq<(String, V)>) -> Map<Seq<char>, V>
    decreases s.len(),
{
    if s.len() == 0 {
        Map::empty()
    } else {
        assoc_map(s.drop_last()).insert(s.last().0@, s.last().1)
    }
}

/// With keys unique, the map holds exactly the keys of the list, each with its
/// value.
pub proof fn lemma_assoc_map<V>(s: Seq<(String, V)>)
    requires
        assoc_wf(s),
    ensures
        forall|k: Seq<char>| #[trigger]
            assoc_map(s).dom().contains(k) <==> exists|i: int| 0 <= i < s.len() && s[i].0@ == k,
        forall|i: int| 0 <= i < s.len() ==> #[trigger] assoc_map(s)[s[i].0@] == s[i].1,
        forall|i: int| 0 <= i < s.len() ==> #[trigger] assoc_map(s).dom().contains(s[i].0@),
        assoc_map(s).dom().finite(),
        assoc_map(s).dom().len() == s.len(),
    decreases s.len(),
{
    if s.len() > 0 {
        let t = s.drop_last();
        let last = s.last();
        assert(assoc_wf(t));
        lemma_assoc_map(t);
        assert(assoc_map(s) == assoc_map(t).insert(last.0@, last.1));
        assert(!assoc_map(t).dom().contains(last.0@)) by {
            if assoc_map(t).dom().contains(last.0@) {
                let i = choose|i: int| 0 <= i < t.len() && t[i].0@ == last.0@;
                assert(s[i] == t[i]);
            }
        }
        assert forall|k: Seq<char>| #[trigger]
            assoc_map(s).dom().contains(k) <==> exists|i: int| 0 <= i < s.len() && s[i].0@ == k by {
            if k == last.0@ {
                assert(s[s.len() - 1].0@ == k);
            } else if assoc_map(s).dom().contains(k) {
                assert(assoc_map(t).dom().contains(k));
                let i = choose|i: int| 0 <= i < t.len() && t[i].0@ == k;
                assert(s[i] == t[i]);
                assert(s[i].0@ == k);
            }
            if exists|i: int| 0 <= i < s.len() && s[i].0@ == k {
                let i = choose|i: int| 0 <= i < s.len() && s[i].0@ == k;
                if i < t.len() {
                    assert(t[i] == s[i]);
                    assert(t[i].0@ == k);
                    assert(assoc_map(t).dom().contains(k));
                }
            }
        }
        assert forall|i: int| 0 <= i < s.len() implies #[trigger] assoc_map(s)[s[i].0@] == s[i].1 by {
            if i < t.len() {
                assert(t[i] == s[i]);
                assert(s[i].0@ != last.0@);
                assert(assoc_map(t)[t[i].0@] == t[i].1);
            }
        }
        assert forall|i: int| 0 <= i < s.len() implies #[trigger] assoc_map(s).dom().contains(
            s[i].0@,
        ) by {
            if i < t.len() {
                assert(t[i] == s[i]);
                assert(assoc_map(t).dom().contains(t[i].0@));
            }
        }
    }
}

/// The position of the entry with key `key`.
pub fn assoc_find<V>(v: &Vec<(String, V)>, key: &str) -> (r: Option<usize>)
    requires
        assoc_wf(v@),
    ensures
        match r {
            Some(i) => i < v@.len() && v@[i as int].0@ == key@ && assoc_map(v@).dom().contains(
                key@,
            ) && assoc_map(v@)[key@] == v@[i as int].1,
            None => !assoc_map(v@).dom().contains(key@),
        },
{
    proof {
        lemma_assoc_map(v@);
    }
    let mut i: usize = 0;
    while i < v.len()
        invariant
            i <= v@.len(),
            assoc_wf(v@),
            forall|j: int| 0 <= j < i ==> v@[j].0@ != key@,
        decreases v@.len() - i,
    {
        if str_eq(v[i].0.as_str(), key) {
            proof {
                lemma_assoc_map(v@);
            }
            assert(assoc_map(v@)[v@[i as int].0@] == v@[i as int].1);
            assert(assoc_map(v@).dom().contains(v@[i as int].0@));
            return Some(i);
        }
        i = i + 1;
    }
    None
}

/// Set the value of `key`, adding the key if it is new.
pub fn assoc_put<V>(v: &mut Vec<(String, V)>, key: &str, value: V)
    requires
        assoc_wf(old(v)@),
    ensures
        assoc_wf(final(v)@),
        assoc_map(final(v)@) == assoc_map(old(v)@).insert(key@, value),
{
    proof {
        lemma_assoc_map(v@);
    }
    match assoc_find(v, key) {
        Some(i) => {
            let ghost s0 = v@;
            v[i].1 = value;
            proof {
                let s1 = v@;
                assert(assoc_wf(s1)) by {
                    assert forall|a: int, b: int| 0 <= a < b < s1.len() implies s1[a].0@
                        != s1[b].0@ by {
                        assert(s1[a].0 == s0[a].0 && s1[b].0 == s0[b].0);
                    }
                }
                lemma_assoc_map(s1);
                assert(assoc_map(s1) =~= assoc_map(s0).insert(key@, value)) by {
                    assert forall|k: Seq<char>| #[trigger] assoc_map(s1).dom().contains(k)
                        == assoc_map(s0).insert(key@, value).dom().contains(k) by {
                        if exists|j: int| 0 <= j < s0.len() && s0[j].0@ == k {
                            let j = choose|j: int| 0 <= j < s0.len() && s0[j].0@ == k;
                            assert(s1[j].0@ == k);
                        }
                        if exists|j: int| 0 <= j < s1.len() && s1[j].0@ == k {
                            let j = choose|j: int| 0 <= j < s1.len() && s1[j].0@ == k;
                            assert(s0[j].0@ == k);
                        }
                    }
                    assert forall|k: Seq<char>| #[trigger] assoc_map(s1).dom().contains(k)
                        implies assoc_map(s1)[k] == assoc_map(s0).insert(key@, value)[k] by {
                        let j = choose|j: int| 0 <= j < s1.len() && s1[j].0@ == k;
                        if j != i {
                            assert(s0[j] == s1[j]);
                        }
                    }
                }
            }
        },
        None => {
            let ghost s0 = v@;
            v.push((key.to_owned(), value));
            proof {
                let s1 = v@;
                assert(s1.drop_last() =~= s0);
                assert(assoc_wf(s1)) by {
                    assert forall|a: int, b: int| 0 <= a < b < s1.len() implies s1[a].0@
                        != s1[b].0@ by {
                        if b == s0.len() {
                            assert(s1[a] == s0[a]);
                        } else {
                            assert(s1[a] == s0[a] && s1[b] == s0[b]);
                        }
                    }
                }
            }
        },
    }
}

/// Remove the entry with key `key`, giving its value back.
pub fn assoc_take<V>(v: &mut Vec<(String, V)>, key: &str) -> (r: Option<V>)
    requires
        assoc_wf(old(v)@),
    ensures
        assoc_wf(final(v)@),
        assoc_map(final(v)@) == assoc_map(old(v)@).remove(key@),
        match r {
            Some(x) => assoc_map(old(v)@).dom().contains(key@) && x == assoc_map(old(v)@)[key@],
            None => !assoc_map(old(v)@).dom().contains(key@),
        },
{
    proof {
        lemma_assoc_map(v@);
    }
    match assoc_find(v, key) {
        Some(i) => {
            let ghost s0 = v@;
            let (_, x) = v.remove(i);
            proof {
                let s1 = v@;
                assert(s1 =~= s0.remove(i as int));
                assert(assoc_wf(s1)) by {
                    assert forall|a: int, b: int| 0 <= a < b < s1.len() implies s1[a].0@
                        != s1[b].0@ by {
                        if b < i {
                            assert(s1[a] == s0[a] && s1[b] == s0[b]);
                        } else if a < i {
                            assert(s1[a] == s0[a] && s1[b] == s0[b + 1]);
                        } else {
                            assert(s1[a] == s0[a + 1] && s1[b] == s0[b + 1]);
                        }
                    }
                }
                lemma_assoc_map(s1);
                assert(assoc_map(s1) =~= assoc_map(s0).remove(key@)) by {
                    assert forall|k: Seq<char>| #[trigger] assoc_map(s1).dom().contains(k)
                        == assoc_map(s0).remove(key@).dom().contains(k) by {
                        if exists|j: int| 0 <= j < s0.len() && s0[j].0@ == k {
                            let j = choose|j: int| 0 <= j < s0.len() && s0[j].0@ == k;
                            if j < i {
                                assert(s1[j] == s0[j]);
                            } else if j > i {
                                assert(s1[j - 1] == s0[j]);
                            }
                        }
                        if exists|j: int| 0 <= j < s1.len() && s1[j].0@ == k {
                            let j = choose|j: int| 0 <= j < s1.len() && s1[j].0@ == k;
                            if j < i {
                                assert(s0[j] == s1[j]);
                            } else {
                                assert(s0[j + 1] == s1[j]);
                            }
                        }
                    }
                    assert forall|k: Seq<char>| #[trigger] assoc_map(s1).dom().contains(k)
                        implies assoc_map(s1)[k] == assoc_map(s0)[k] by {
                        let j = choose|j: int| 0 <= j < s1.len() && s1[j].0@ == k;
                        if j < i {
                            assert(s0[j] == s1[j]);
                        } else {
                            assert(s0[j + 1] == s1[j]);
                        }
                    }
                }
            }
            Some(x)
        },
        None => {
            assert(assoc_map(v@) =~= assoc_map(v@).remove(key@));
            None
        },
    }
}

/// The keys of a keyed list, each once.
pub fn assoc_key_list<V>(v: &Vec<(String, V)>) -> (r: Vec<String>)
    requires
        assoc_wf(v@),
    ensures
        texts(r@) == assoc_keys(v@),
        texts(r@).to_set() == assoc_map(v@).dom(),
        texts(r@).no_duplicates(),
{
    proof {
        lemma_assoc_map(v@);
    }
    let mut out: Vec<String> = Vec::new();
    let mut i: usize = 0;
    while i < v.len()
        invariant
            i <= v@.len(),
            texts(out@) == assoc_keys(v@).take(i as int),
        decreases v@.len() - i,
    {
        let ghost before = out@;
        out.push(v[i].0.clone());
        assert(out@ =~= before.push(v@[i as int].0));
        assert(texts(out@) =~= texts(before).push(v@[i as int].0@));
        i = i + 1;
        assert(texts(out@) =~= assoc_keys(v@).take(i as int));
    }
    proof {
        let keys = assoc_keys(v@);
        assert(keys.take(i as int) =~= keys);
        assert(keys.to_set() =~= assoc_map(v@).dom()) by {
            assert forall|k: Seq<char>| keys.to_set().contains(k) == assoc_map(v@).dom().contains(
                k,
            ) by {
                if assoc_map(v@).dom().contains(k) {
                    let j = choose|j: int| 0 <= j < v@.len() && v@[j].0@ == k;
                    assert(keys[j] == k);
                }
            }
        }
        assert(keys.no_duplicates()) by {
            assert forall|a: int, b: int| 0 <= a < keys.len() && 0 <= b < keys.len() && a != b implies keys[a] != keys[b] by {
                if a < b {
                    assert(v@[a].0@ != v@[b].0@);
                } else {
                    assert(v@[b].0@ != v@[a].0@);
                }
            }
        }
    }
    out
}

/// Add `x` to a list of texts without repeats, unless it is there.
pub fn set_add(v: &mut Vec<String>, x: &str)
    requires
        texts(old(v)@).no_duplicates(),
    ensures
        texts(final(v)@).no_duplicates(),
        texts(final(v)@).to_set() == texts(old(v)@).to_set().insert(x@),
{
    let ghost s0 = texts(v@);
    let mut i: usize = 0;
    while i < v.len()
        invariant
            i <= v@.len(),
            s0 == texts(v@),
            s0.no_duplicates(),
            forall|j: int| 0 <= j < i ==> s0[j] != x@,
        decreases v@.len() - i,
    {
        if str_eq(v[i].as_str(), x) {
            proof {
                assert(s0[i as int] == x@);
                assert(s0.to_set() =~= s0.to_set().insert(x@));
            }
            return;
        }
        i = i + 1;
    }
    v.push(x.to_owned());
    proof {
        let s1 = texts(v@);
        assert(s1 =~= s0.push(x@));
        assert forall|y: Seq<char>| s1.contains(y) <==> (s0.contains(y) || y == x@) by {
            if s1.contains(y) {
                let j = choose|j: int| 0 <= j < s1.len() && s1[j] == y;
                if j < s0.len() {
                    assert(s0[j] == y);
                }
            }
            if s0.contains(y) {
                let j = choose|j: int| 0 <= j < s0.len() && s0[j] == y;
                assert(s1[j] == y);
            }
            if y == x@ {
                assert(s1[s0.len() as int] == y);
            }
        }
        assert(s1.to_set() =~= s0.to_set().insert(x@));
    }
}

} // verus!
