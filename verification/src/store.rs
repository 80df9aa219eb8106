//! An explicit model of the process environment: an ordered list of
//! key/value bindings with unique keys, viewed as a map from key
//! characters to value characters.

use vstd::prelude::*;

verus! {

/// First-match lookup over a sequence of bindings.
pub open spec fn lookup_pairs(pairs: Seq<(String, String)>, k: Seq<char>) -> Option<Seq<char>>
    decreases pairs.len(),
{
    if pairs.len() == 0 {
        None
    } else if pairs[0].0@ == k {
        Some(pairs[0].1@)
    } else {
        lookup_pairs(pairs.drop_first(), k)
    }
}

/// The map that a sequence of bindings denotes under first-match lookup.
pub open spec fn pairs_as_map(pairs: Seq<(String, String)>) -> Map<Seq<char>, Seq<char>> {
    Map::new(
        |k: Seq<char>| lookup_pairs(pairs, k) is Some,
        |k: Seq<char>| lookup_pairs(pairs, k).unwrap(),
    )
}

/// Pairwise distinct keys.
pub open spec fn distinct_keys(pairs: Seq<(String, String)>) -> bool {
    forall|a: int, b: int|
        0 <= a < b < pairs.len() ==> (#[trigger] pairs[a]).0@ != (#[trigger] pairs[b]).0@
}

/// A mutable snapshot of the environment: bindings with pairwise
/// distinct keys, consulted by the cascade and the resolver and flushed
/// into the real process environment by the caller.
pub struct EnvStore {
    entries: Vec<(String, String)>,
}

impl View for EnvStore {
    type V = Map<Seq<char>, Seq<char>>;

    closed spec fn view(&self) -> Map<Seq<char>, Seq<char>> {
        pairs_as_map(self.entries@)
    }
}

proof fn lemma_lookup_push(pairs: Seq<(String, String)>, p: (String, String), k: Seq<char>)
    ensures
        lookup_pairs(pairs.push(p), k) == if lookup_pairs(pairs, k) is Some {
            lookup_pairs(pairs, k)
        } else if p.0@ == k {
            Some(p.1@)
        } else {
            None::<Seq<char>>
        },
    decreases pairs.len(),
{
    if pairs.len() == 0 {
        reveal_with_fuel(lookup_pairs, 2);
        assert(pairs.push(p)[0] == p);
        assert(pairs.push(p).drop_first() =~= Seq::<(String, String)>::empty());
    } else {
        assert(pairs.push(p)[0] == pairs[0]);
        assert(pairs.push(p).drop_first() =~= pairs.drop_first().push(p));
        lemma_lookup_push(pairs.drop_first(), p, k);
    }
}

proof fn lemma_lookup_remove(pairs: Seq<(String, String)>, i: int, k: Seq<char>)
    requires
        0 <= i < pairs.len(),
        pairs[i].0@ != k,
    ensures
        lookup_pairs(pairs.remove(i), k) == lookup_pairs(pairs, k),
    decreases pairs.len(),
{
    if i == 0 {
        assert(pairs.remove(0) =~= pairs.drop_first());
    } else {
        assert(pairs.remove(i)[0] == pairs[0]);
        assert(pairs.remove(i).drop_first() =~= pairs.drop_first().remove(i - 1));
        if pairs[0].0@ != k {
            lemma_lookup_remove(pairs.drop_first(), i - 1, k);
        }
    }
}

/// A key that matches no entry looks up to nothing.
proof fn lemma_lookup_all_miss(pairs: Seq<(String, String)>, k: Seq<char>)
    requires
        forall|j: int| 0 <= j < pairs.len() ==> (#[trigger] pairs[j]).0@ != k,
    ensures
        lookup_pairs(pairs, k) is None,
    decreases pairs.len(),
{
    if pairs.len() > 0 {
        assert(forall|j: int|
            0 <= j < pairs.drop_first().len() ==> (#[trigger] pairs.drop_first()[j]).0@ != k);
        lemma_lookup_all_miss(pairs.drop_first(), k);
    }
}

/// Under distinct keys, every binding is the one that lookup finds.
proof fn lemma_lookup_of_entry(pairs: Seq<(String, String)>, i: int)
    requires
        0 <= i < pairs.len(),
        distinct_keys(pairs),
    ensures
        lookup_pairs(pairs, pairs[i].0@) == Some(pairs[i].1@),
    decreases pairs.len(),
{
    if i > 0 {
        assert(pairs[0].0@ != pairs[i].0@);
        assert(pairs.drop_first()[i - 1] == pairs[i]);
        assert(distinct_keys(pairs.drop_first())) by {
            assert(forall|a: int, b: int|
                0 <= a < b < pairs.drop_first().len() ==> (#[trigger] pairs.drop_first()[a]).0@
                    != (#[trigger] pairs.drop_first()[b]).0@);
        }
        lemma_lookup_of_entry(pairs.drop_first(), i - 1);
    }
}

/// The index of the first binding of `key`, if any.
fn position_of(entries: &Vec<(String, String)>, key: &String) -> (r: Option<usize>)
    ensures
        match r {
            Some(i) => 0 <= i < entries@.len() && entries@[i as int].0@ == key@ && forall|j: int|
                0 <= j < i ==> (#[trigger] entries@[j]).0@ != key@,
            None => forall|j: int| 0 <= j < entries@.len() ==> (#[trigger] entries@[j]).0@ != key@,
        },
{
    let n = entries.len();
    let mut i: usize = 0;
    while i < n
        invariant
            n == entries@.len(),
            0 <= i <= n,
            forall|j: int| 0 <= j < i ==> (#[trigger] entries@[j]).0@ != key@,
        decreases n - i,
    {
        if entries[i].0.eq(key) {
            return Some(i);
        }
        i = i + 1;
    }
    None
}

/// The value of the first binding of `key` in a raw pair list, as a
/// key/value file reader hands it over.
pub fn first_value<'a>(pairs: &'a Vec<(String, String)>, key: &String) -> (r: Option<&'a String>)
    ensures
        (match r {
            Some(v) => lookup_pairs(pairs@, key@) == Some(v@),
            None => lookup_pairs(pairs@, key@) is None,
        }),
{
    match position_of(pairs, key) {
        Some(i) => {
            proof {
                lemma_lookup_found(pairs@, i as int, key@);
            }
            Some(&pairs[i].1)
        },
        None => {
            proof {
                lemma_lookup_all_miss(pairs@, key@);
            }
            None
        },
    }
}

impl EnvStore {
    /// Keys are pairwise distinct, so that flushing the entries into the
    /// real environment in order reproduces exactly the map this store
    /// denotes.
    pub closed spec fn wf(&self) -> bool {
        distinct_keys(self.entries@)
    }

    /// An empty store: no key is bound.
    pub fn new() -> (r: EnvStore)
        ensures
            r.wf(),
            r@ == Map::<Seq<char>, Seq<char>>::empty(),
    {
        let r = EnvStore { entries: Vec::new() };
        proof {
            assert(r@ =~= Map::<Seq<char>, Seq<char>>::empty());
        }
        r
    }

    /// Looks a key up; `Some` exactly when the key is bound, with its value.
    pub fn get(&self, key: &String) -> (r: Option<&String>)
        ensures
            match r {
                Some(v) => self@.contains_key(key@) && self@[key@] == v@,
                None => !self@.contains_key(key@),
            },
    {
        match position_of(&self.entries, key) {
            Some(i) => {
                proof {
                    lemma_lookup_found(self.entries@, i as int, key@);
                }
                Some(&self.entries[i].1)
            },
            None => {
                proof {
                    lemma_lookup_all_miss(self.entries@, key@);
                }
                None
            },
        }
    }

    /// Binds `key` to `value` unless the key is already bound; the merge
    /// step of the cascade (first write wins).
    pub fn set_if_absent(&mut self, key: &String, value: &String)
        requires
            old(self).wf(),
        ensures
            final(self).wf(),
            final(self)@ == if old(self)@.contains_key(key@) {
                old(self)@
            } else {
                old(self)@.insert(key@, value@)
            },
    {
        let present = match self.get(key) {
            Some(_) => true,
            None => false,
        };
        if !present {
            let ghost before = self.entries@;
            let pair = (key.clone(), value.clone());
            let ghost gpair = pair;
            self.entries.push(pair);
            proof {
                assert(self.entries@ == before.push(gpair));
                assert forall|k: Seq<char>| #[trigger]
                    lookup_pairs(self.entries@, k) == (if lookup_pairs(before, k) is Some {
                        lookup_pairs(before, k)
                    } else if key@ == k {
                        Some(value@)
                    } else {
                        None::<Seq<char>>
                    }) by {
                    lemma_lookup_push(before, gpair, k);
                }
                assert(self@ =~= old(self)@.insert(key@, value@));
                assert forall|a: int, b: int|
                    0 <= a < b < self.entries@.len() implies (#[trigger] self.entries@[a]).0@ != (
                #[trigger] self.entries@[b]).0@ by {
                    if b == self.entries@.len() - 1 {
                        lemma_lookup_of_entry(before, a);
                    }
                }
            }
        }
    }

    /// Binds `key` to `value` unconditionally, replacing any old value;
    /// how the resolved mode is written back into the environment.
    pub fn set(&mut self, key: &String, value: &String)
        requires
            old(self).wf(),
        ensures
            final(self).wf(),
            final(self)@ == old(self)@.insert(key@, value@),
    {
        let found = position_of(&self.entries, key);
        let ghost before = self.entries@;
        match found {
            Some(i) => {
                self.entries.remove(i);
                let ghost removed = self.entries@;
                let pair = (key.clone(), value.clone());
                let ghost gpair = pair;
                self.entries.push(pair);
                proof {
                    assert(removed == before.remove(i as int));
                    assert(self.entries@ == removed.push(gpair));
                    assert forall|k: Seq<char>| #[trigger]
                        lookup_pairs(self.entries@, k) == (if k == key@ {
                            Some(value@)
                        } else {
                            lookup_pairs(before, k)
                        }) by {
                        lemma_lookup_push(removed, gpair, k);
                        if k != key@ {
                            lemma_lookup_remove(before, i as int, k);
                        } else {
                            lemma_removed_key_missing(before, i as int, k);
                        }
                    }
                    assert(self@ =~= old(self)@.insert(key@, value@));
                    lemma_remove_push_distinct(before, i as int, gpair);
                }
            },
            None => {
                let pair = (key.clone(), value.clone());
                let ghost gpair = pair;
                self.entries.push(pair);
                proof {
                    assert(self.entries@ == before.push(gpair));
                    assert forall|k: Seq<char>| #[trigger]
                        lookup_pairs(self.entries@, k) == (if lookup_pairs(before, k) is Some {
                            lookup_pairs(before, k)
                        } else if key@ == k {
                            Some(value@)
                        } else {
                            None::<Seq<char>>
                        }) by {
                        lemma_lookup_push(before, gpair, k);
                    }
                    lemma_lookup_all_miss(before, key@);
                    assert(self@ =~= old(self)@.insert(key@, value@));
                    assert forall|a: int, b: int|
                        0 <= a < b < self.entries@.len() implies (#[trigger] self.entries@[a]).0@
                        != (#[trigger] self.entries@[b]).0@ by {}
                }
            },
        }
    }

    /// The bindings as a list, for flushing into the real environment:
    /// each entry is bound in the map to exactly its listed value, and
    /// every bound key is listed.
    pub fn entries(&self) -> (r: &Vec<(String, String)>)
        requires
            self.wf(),
        ensures
            forall|i: int|
                0 <= i < r@.len() ==> self@.contains_key((#[trigger] r@[i]).0@) && self@[r@[i].0@]
                    == r@[i].1@,
            forall|k: Seq<char>|
                self@.contains_key(k) ==> exists|i: int|
                    0 <= i < r@.len() && (#[trigger] r@[i]).0@ == k,
    {
        proof {
            assert forall|i: int|
                0 <= i < self.entries@.len() implies self@.contains_key(
                (#[trigger] self.entries@[i]).0@,
            ) && self@[self.entries@[i].0@] == self.entries@[i].1@ by {
                lemma_lookup_of_entry(self.entries@, i);
            }
            assert forall|k: Seq<char>| self@.contains_key(k) implies exists|i: int|
                0 <= i < self.entries@.len() && (#[trigger] self.entries@[i]).0@ == k by {
                lemma_lookup_some_has_index(self.entries@, k);
            }
        }
        &self.entries
    }
}

/// A key that looks up to something matches some entry.
proof fn lemma_lookup_some_has_index(pairs: Seq<(String, String)>, k: Seq<char>)
    requires
        lookup_pairs(pairs, k) is Some,
    ensures
        exists|i: int| 0 <= i < pairs.len() && (#[trigger] pairs[i]).0@ == k,
    decreases pairs.len(),
{
    if pairs[0].0@ == k {
        assert(0 <= 0 < pairs.len() && pairs[0].0@ == k);
    } else {
        lemma_lookup_some_has_index(pairs.drop_first(), k);
        let j = choose|j: int|
            0 <= j < pairs.drop_first().len() && (#[trigger] pairs.drop_first()[j]).0@ == k;
        assert(pairs.drop_first()[j] == pairs[j + 1]);
        assert(0 <= j + 1 < pairs.len() && pairs[j + 1].0@ == k);
    }
}

/// Lookup at the first matching index yields that entry's value.
proof fn lemma_lookup_found(pairs: Seq<(String, String)>, i: int, k: Seq<char>)
    requires
        0 <= i < pairs.len(),
        pairs[i].0@ == k,
        forall|j: int| 0 <= j < i ==> (#[trigger] pairs[j]).0@ != k,
    ensures
        lookup_pairs(pairs, k) == Some(pairs[i].1@),
    decreases i,
{
    if i > 0 {
        assert(pairs.drop_first()[i - 1] == pairs[i]);
        assert(forall|j: int| 0 <= j < i - 1 ==> (#[trigger] pairs.drop_first()[j]).0@ != k);
        lemma_lookup_found(pairs.drop_first(), i - 1, k);
    }
}

/// Removing the only binding of a key leaves the key unbound.
proof fn lemma_removed_key_missing(before: Seq<(String, String)>, i: int, k: Seq<char>)
    requires
        0 <= i < before.len(),
        before[i].0@ == k,
        distinct_keys(before),
        forall|j: int| 0 <= j < i ==> (#[trigger] before[j]).0@ != k,
    ensures
        lookup_pairs(before.remove(i), k) is None,
{
    let s = before.remove(i);
    assert forall|j: int| 0 <= j < s.len() implies (#[trigger] s[j]).0@ != k by {
        if j < i {
            assert(s[j] == before[j]);
        } else {
            assert(s[j] == before[j + 1]);
            assert(before[i].0@ != before[j + 1].0@);
        }
    }
    lemma_lookup_all_miss(s, k);
}

/// Replacing a key's binding by a removal and a push keeps keys distinct.
proof fn lemma_remove_push_distinct(before: Seq<(String, String)>, i: int, p: (String, String))
    requires
        0 <= i < before.len(),
        p.0@ == before[i].0@,
        distinct_keys(before),
    ensures
        distinct_keys(before.remove(i).push(p)),
{
    let s = before.remove(i).push(p);
    assert(s.len() == before.len());
    assert forall|a: int, b: int| 0 <= a < b < s.len() implies (#[trigger] s[a]).0@ != (
    #[trigger] s[b]).0@ by {
        if b < s.len() - 1 {
            let a0: int = if a < i {
                a
            } else {
                a + 1
            };
            let b0: int = if b < i {
                b
            } else {
                b + 1
            };
            assert(s[a] == before[a0]);
            assert(s[b] == before[b0]);
        } else {
            let a0: int = if a < i {
                a
            } else {
                a + 1
            };
            assert(s[a] == before[a0]);
            assert(s[b] == p);
            if a0 < i {
                assert(before[a0].0@ != before[i].0@);
            } else {
                assert(before[i].0@ != before[a0].0@);
            }
        }
    }
}

} // verus!
