//! A map from argument names to argument values, each name held once, kept
//! in the order of `String`, as a `BTreeMap<String, String>` keeps them.

use vstd::prelude::*;

use crate::text::{chars_of, lemma_lex_irreflexive, lemma_lex_total, lemma_lex_transitive, lex_less, lex_lt};

verus! {

/// Argument names mapped to their values. Its model is a `Map` from the name's
/// characters to the value's characters.
///
/// It stands for a `BTreeMap<String, String>`: the pairs are kept in a `Vec`,
/// in increasing order of names with no name twice, so that both what the map
/// holds and the order its pairs come out in are proved: with `String` keys,
/// Verus proves nothing of what a `BTreeMap` holds.
#[derive(Debug)]
pub struct ArgMap {
    entries: Vec<(String, String)>,
}

/// No name occurs twice in `s`.
pub open spec fn distinct_keys(s: Seq<(String, String)>) -> bool {
    forall|i: int, j: int| 0 <= i < j < s.len() ==> #[trigger] s[i].0@ != #[trigger] s[j].0@
}

/// The names of `s` are in strictly increasing order.
pub open spec fn sorted_keys(s: Seq<(String, String)>) -> bool {
    forall|i: int, j: int| 0 <= i < j < s.len() ==> lex_lt(#[trigger] s[i].0@, #[trigger] s[j].0@)
}

/// Names in increasing order are distinct.
pub proof fn lemma_sorted_distinct(s: Seq<(String, String)>)
    requires
        sorted_keys(s),
    ensures
        distinct_keys(s),
{
    assert forall|i: int, j: int| 0 <= i < j < s.len() implies #[trigger] s[i].0@ != #[trigger] s[j].0@ by {
        lemma_lex_irreflexive(s[i].0@);
    }
}

/// Inserting a pair at a place where its name sorts between its neighbours
/// keeps the names in order.
proof fn lemma_sorted_insert(s: Seq<(String, String)>, i: int, p: (String, String))
    requires
        0 <= i <= s.len(),
        sorted_keys(s),
        forall|j: int| 0 <= j < i ==> lex_lt(#[trigger] s[j].0@, p.0@),
        forall|j: int| i <= j < s.len() ==> lex_lt(p.0@, #[trigger] s[j].0@),
    ensures
        sorted_keys(s.insert(i, p)),
{
    let t = s.insert(i, p);
    assert forall|a: int, b: int| 0 <= a < b < t.len() implies lex_lt(#[trigger] t[a].0@, #[trigger] t[b].0@) by {
        if b < i {
            assert(t[a] == s[a] && t[b] == s[b]);
        } else if b == i {
            assert(t[a] == s[a] && t[b] == p);
        } else if a < i {
            assert(t[a] == s[a] && t[b] == s[b - 1]);
        } else if a == i {
            assert(t[a] == p && t[b] == s[b - 1]);
        } else {
            assert(t[a] == s[a - 1] && t[b] == s[b - 1]);
        }
    }
}

/// Inserting a pair whose name is new adds that name with its value.
proof fn lemma_pairs_map_insert(s: Seq<(String, String)>, i: int, p: (String, String))
    requires
        0 <= i <= s.len(),
        distinct_keys(s),
        distinct_keys(s.insert(i, p)),
        !has_key(s, p.0@),
    ensures
        pairs_map(s.insert(i, p)) == pairs_map(s).insert(p.0@, p.1@),
{
    let t = s.insert(i, p);
    lemma_pairs_map(s);
    lemma_pairs_map(t);
    assert forall|q: Seq<char>| has_key(t, q) <==> (has_key(s, q) || q == p.0@) by {
        if has_key(t, q) {
            let j = choose|j: int| 0 <= j < t.len() && #[trigger] t[j].0@ == q;
            if j < i {
                assert(s[j] == t[j]);
            } else if j > i {
                assert(s[j - 1] == t[j]);
            }
        }
        if has_key(s, q) {
            let j = choose|j: int| 0 <= j < s.len() && #[trigger] s[j].0@ == q;
            if j < i {
                assert(t[j] == s[j]);
            } else {
                assert(t[j + 1] == s[j]);
            }
        }
        if q == p.0@ {
            assert(t[i] == p);
        }
    }
    assert forall|q: Seq<char>| #[trigger] pairs_map(t).contains_key(q) implies pairs_map(t)[q]
        == pairs_map(s).insert(p.0@, p.1@)[q] by {
        let j = choose|j: int| 0 <= j < t.len() && #[trigger] t[j].0@ == q;
        assert(pairs_map(t)[t[j].0@] == t[j].1@);
        if j < i {
            assert(t[j] == s[j]);
            assert(pairs_map(s)[s[j].0@] == s[j].1@);
        } else if j > i {
            assert(t[j] == s[j - 1]);
            assert(pairs_map(s)[s[j - 1].0@] == s[j - 1].1@);
        }
    }
    assert(pairs_map(t) =~= pairs_map(s).insert(p.0@, p.1@));
}

/// Some entry of `s` has name `k`.
pub open spec fn has_key(s: Seq<(String, String)>, k: Seq<char>) -> bool {
    exists|i: int| 0 <= i < s.len() && #[trigger] s[i].0@ == k
}

/// The map of the pairs `s`, whose names are distinct.
pub open spec fn pairs_map(s: Seq<(String, String)>) -> Map<Seq<char>, Seq<char>> {
    Map::new(
        |k: Seq<char>| has_key(s, k),
        |k: Seq<char>| s[choose|i: int| 0 <= i < s.len() && #[trigger] s[i].0@ == k].1@,
    )
}

/// With distinct names, the map holds exactly the pairs of `s`.
pub proof fn lemma_pairs_map(s: Seq<(String, String)>)
    requires
        distinct_keys(s),
    ensures
        forall|i: int|
            0 <= i < s.len() ==> pairs_map(s).contains_key(#[trigger] s[i].0@) && pairs_map(s)[s[i].0@]
                == s[i].1@,
        forall|k: Seq<char>| pairs_map(s).contains_key(k) <==> has_key(s, k),
{
    assert forall|i: int| 0 <= i < s.len() implies pairs_map(s).contains_key(#[trigger] s[i].0@)
        && pairs_map(s)[s[i].0@] == s[i].1@ by {
        assert(has_key(s, s[i].0@));
        let j = choose|j: int| 0 <= j < s.len() && #[trigger] s[j].0@ == s[i].0@;
        if j != i {
            if j < i {
                assert(s[j].0@ != s[i].0@);
            } else {
                assert(s[i].0@ != s[j].0@);
            }
        }
    }
}

impl View for ArgMap {
    type V = Map<Seq<char>, Seq<char>>;

    closed spec fn view(&self) -> Map<Seq<char>, Seq<char>> {
        pairs_map(self.entries@)
    }
}

impl ArgMap {
    #[verifier::type_invariant]
    closed spec fn names_sorted(self) -> bool {
        sorted_keys(self.entries@)
    }

    /// An empty map.
    pub fn new() -> (m: ArgMap)
        ensures
            m@ == Map::<Seq<char>, Seq<char>>::empty(),
    {
        let m = ArgMap { entries: Vec::new() };
        assert(m@ =~= Map::<Seq<char>, Seq<char>>::empty());
        m
    }

    /// The value stored under `key`.
    pub fn get(&self, key: &str) -> (r: Option<&String>)
        ensures
            match r {
                Some(v) => self@.contains_key(key@) && self@[key@] == v@,
                None => !self@.contains_key(key@),
            },
    {
        proof {
            use_type_invariant(self);
            lemma_sorted_distinct(self.entries@);
            lemma_pairs_map(self.entries@);
        }
        let key_s = key.to_owned();
        let mut i: usize = 0;
        while i < self.entries.len()
            invariant
                0 <= i <= self.entries@.len(),
                key_s@ == key@,
                forall|j: int| 0 <= j < i ==> self.entries@[j].0@ != key@,
            decreases self.entries@.len() - i,
        {
            if self.entries[i].0 == key_s {
                proof {
                    use_type_invariant(self);
                    lemma_sorted_distinct(self.entries@);
                    lemma_pairs_map(self.entries@);
                }
                return Some(&self.entries[i].1);
            }
            i = i + 1;
        }
        None
    }

    /// Stores `value` under `key`, replacing any value stored there before.
    pub fn insert(&mut self, key: String, value: String)
        ensures
            final(self)@ == old(self)@.insert(key@, value@),
    {
        proof {
            use_type_invariant(&*self);
            lemma_sorted_distinct(self.entries@);
            lemma_pairs_map(self.entries@);
        }
        let ghost old_entries = self.entries@;
        let ghost k = key@;
        let ghost v = value@;
        let mut entries: Vec<(String, String)> = Vec::new();
        std::mem::swap(&mut entries, &mut self.entries);
        let key_chars = chars_of(key.as_str());
        let mut i: usize = 0;
        while i < entries.len()
            invariant
                0 <= i <= entries@.len(),
                entries@ == old_entries,
                old_entries == old(self).entries@,
                sorted_keys(old_entries),
                distinct_keys(old_entries),
                key_chars@ == k,
                key@ == k,
                value@ == v,
                forall|j: int| 0 <= j < i ==> lex_lt(#[trigger] old_entries[j].0@, k),
            decreases entries@.len() - i,
        {
            if entries[i].0 == key {
                entries.set(i, (key, value));
                proof {
                    let s = entries@;
                    assert forall|a: int, b: int| 0 <= a < b < s.len() implies lex_lt(
                        #[trigger] s[a].0@,
                        #[trigger] s[b].0@,
                    ) by {
                        assert(lex_lt(old_entries[a].0@, old_entries[b].0@));
                    }
                    lemma_sorted_distinct(s);
                    lemma_pairs_map(s);
                    assert forall|q: Seq<char>| has_key(s, q) <==> has_key(old_entries, q) by {
                        if has_key(s, q) {
                            let j = choose|j: int| 0 <= j < s.len() && #[trigger] s[j].0@ == q;
                            assert(old_entries[j].0@ == q);
                        }
                        if has_key(old_entries, q) {
                            let j = choose|j: int|
                                0 <= j < old_entries.len() && #[trigger] old_entries[j].0@ == q;
                            assert(s[j].0@ == q);
                        }
                    }
                    assert forall|q: Seq<char>| #[trigger]
                        pairs_map(s).contains_key(q) implies pairs_map(s)[q] == pairs_map(
                        old_entries,
                    ).insert(k, v)[q] by {
                        let j = choose|j: int| 0 <= j < s.len() && #[trigger] s[j].0@ == q;
                        assert(pairs_map(s)[s[j].0@] == s[j].1@);
                        if j != i {
                            assert(old_entries[j] == s[j]);
                            assert(pairs_map(old_entries)[old_entries[j].0@] == old_entries[j].1@);
                        }
                    }
                    assert(pairs_map(s) =~= pairs_map(old_entries).insert(k, v));
                }
                self.entries = entries;
                return;
            }
            let here = chars_of(entries[i].0.as_str());
            if lex_less(&key_chars, &here) {
                proof {
                    assert forall|j: int| i <= j < old_entries.len() implies lex_lt(
                        k,
                        #[trigger] old_entries[j].0@,
                    ) by {
                        if j > i {
                            lemma_lex_transitive(k, old_entries[i as int].0@, old_entries[j].0@);
                        }
                    }
                    assert forall|j: int| 0 <= j < old_entries.len() implies #[trigger] old_entries[j].0@
                        != k by {
                        lemma_lex_irreflexive(k);
                    }
                    lemma_sorted_insert(old_entries, i as int, (key, value));
                    lemma_sorted_distinct(old_entries.insert(i as int, (key, value)));
                    lemma_pairs_map_insert(old_entries, i as int, (key, value));
                }
                entries.insert(i, (key, value));
                self.entries = entries;
                return;
            }
            proof {
                lemma_lex_total(k, old_entries[i as int].0@);
            }
            i = i + 1;
        }
        proof {
            assert forall|j: int| 0 <= j < old_entries.len() implies #[trigger] old_entries[j].0@ != k by {
                lemma_lex_irreflexive(k);
            }
            let n = old_entries.len() as int;
            assert(old_entries.push((key, value)) =~= old_entries.insert(n, (key, value)));
            lemma_sorted_insert(old_entries, n, (key, value));
            lemma_sorted_distinct(old_entries.insert(n, (key, value)));
            lemma_pairs_map_insert(old_entries, n, (key, value));
        }
        entries.push((key, value));
        self.entries = entries;
    }

    /// The stored pairs, each name once, in increasing order of names.
    pub fn pairs(&self) -> (r: &Vec<(String, String)>)
        ensures
            sorted_keys(r@),
            distinct_keys(r@),
            pairs_map(r@) == self@,
    {
        proof {
            use_type_invariant(self);
            lemma_sorted_distinct(self.entries@);
        }
        &self.entries
    }

    /// A copy of the map.
    pub fn duplicate(&self) -> (r: ArgMap)
        ensures
            r@ == self@,
    {
        proof {
            use_type_invariant(self);
        }
        let mut entries: Vec<(String, String)> = Vec::new();
        let mut i: usize = 0;
        while i < self.entries.len()
            invariant
                0 <= i <= self.entries@.len(),
                entries@.len() == i,
                forall|j: int| 0 <= j < i ==> #[trigger] entries@[j] == self.entries@[j],
            decreases self.entries@.len() - i,
        {
            let k = self.entries[i].0.clone();
            let v = self.entries[i].1.clone();
            entries.push((k, v));
            i = i + 1;
        }
        assert(entries@ =~= self.entries@);
        ArgMap { entries }
    }
}

impl Clone for ArgMap {
    fn clone(&self) -> (r: ArgMap)
        ensures
            r@ == self@,
    {
        self.duplicate()
    }
}

} // verus!
