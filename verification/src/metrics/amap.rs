use vstd::prelude::*;

use crate::errors::MetricsError;
use crate::metrics::{copy_entries, find_key, has_key, keys_distinct, value_of, counters_of};
use crate::metrics::{lemma_first_match, lemma_no_match, lemma_push, lemma_update,
    lemma_haskey_exists};

verus! {

/// A table of counters whose names are fixed at construction: adjusting a
/// name that was never registered fails instead of creating it.
#[derive(Clone)]
pub struct AmapMetrics {
    entries: Vec<(String, i64)>,
}

impl View for AmapMetrics {
    type V = Map<Seq<char>, int>;

    closed spec fn view(&self) -> Map<Seq<char>, int> {
        counters_of(self.entries@)
    }
}

impl AmapMetrics {
    /// Each counter name occurs at most once in the backing table.
    pub closed spec fn wf(self) -> bool {
        keys_distinct(self.entries@)
    }

    /// Registers the given names, each starting at zero. A repeated name is
    /// registered once.
    pub fn new(names: &Vec<String>) -> (m: AmapMetrics)
        ensures
            m.wf(),
            forall|p: int|
                0 <= p < names@.len() ==> m@.contains_key((#[trigger] names@[p])@) && m@[names@[
                    p
                ]@] == 0,
            forall|k: Seq<char>|
                #[trigger] m@.contains_key(k) ==> exists|p: int|
                    0 <= p < names@.len() && (#[trigger] names@[p])@ == k,
    {
        let mut entries: Vec<(String, i64)> = Vec::new();
        let mut idx: usize = 0;
        while idx < names.len()
            invariant
                idx <= names@.len(),
                keys_distinct(entries@),
                forall|q: int| 0 <= q < entries@.len() ==> (#[trigger] entries@[q]).1 == 0,
                forall|p: int|
                    0 <= p < idx ==> has_key(entries@, (#[trigger] names@[p])@) && value_of(
                        entries@,
                        names@[p]@,
                    ) == 0,
                forall|k: Seq<char>|
                    #[trigger] has_key(entries@, k) ==> exists|p: int|
                        0 <= p < idx && (#[trigger] names@[p])@ == k,
            decreases names@.len() - idx,
        {
            let name = names[idx].clone();
            let ghost s0 = entries@;
            match find_key(&entries, &name) {
                Some(p) => {
                    proof {
                        lemma_first_match(s0, p as int);
                        assert(entries@[p as int].1 == 0);
                        assert(names@[idx as int]@ == entries@[p as int].0@);
                        assert(has_key(entries@, names@[idx as int]@));
                        assert(value_of(entries@, names@[idx as int]@) == 0);
                    }
                },
                None => {
                    proof {
                        lemma_no_match(s0, name@);
                    }
                    let ghost kk = name@;
                    entries.push((name, 0));
                    proof {
                        let e = entries@.last();
                        assert(entries@ == s0.push(e));
                        assert forall|k2: Seq<char>|
                            has_key(entries@, k2) == (has_key(s0, k2) || k2 == kk) && value_of(
                                entries@,
                                k2,
                            ) == (if has_key(s0, k2) {
                                value_of(s0, k2)
                            } else if k2 == kk {
                                0
                            } else {
                                0
                            }) by {
                            lemma_push(s0, e, k2);
                        }
                        assert forall|x: int, y: int|
                            #![trigger entries@[x], entries@[y]]
                            0 <= x < y < entries@.len() implies entries@[x].0@
                            != entries@[y].0@ by {
                            if y < s0.len() {
                                assert(s0[x].0@ != s0[y].0@);
                            } else {
                                assert(entries@[y] == e);
                                assert(entries@[x] == s0[x]);
                            }
                        }
                        assert(names@[idx as int]@ == kk);
                        assert forall|k2: Seq<char>| #[trigger] has_key(entries@, k2) implies exists|p: int|
                            0 <= p < idx + 1 && (#[trigger] names@[p])@ == k2 by {
                            if k2 == kk {
                                assert(0 <= idx < idx + 1 && names@[idx as int]@ == k2);
                            } else {
                                assert(has_key(s0, k2));
                                let p0 = choose|p: int|
                                    0 <= p < idx && (#[trigger] names@[p])@ == k2;
                                assert(0 <= p0 < idx + 1 && names@[p0]@ == k2);
                            }
                        }
                    }
                },
            }
            idx = idx + 1;
        }
        AmapMetrics { entries }
    }

    /// Adds one to the counter under `key`; fails with `KeyNotFound`, and
    /// changes nothing, when `key` was never registered.
    pub fn inc(&mut self, key: &str) -> (r: Result<(), MetricsError>)
        requires
            old(self).wf(),
            old(self)@.contains_key(key@) ==> old(self)@[key@] < i64::MAX,
        ensures
            final(self).wf(),
            r is Ok <==> old(self)@.contains_key(key@),
            r is Ok ==> final(self)@ == old(self)@.insert(key@, old(self)@[key@] + 1),
            r is Err ==> r->Err_0 == MetricsError::KeyNotFound && *final(self) == *old(self),
    {
        let owned: String = key.to_owned();
        let ghost s0 = self.entries@;
        match find_key(&self.entries, &owned) {
            Some(p) => {
                proof {
                    lemma_first_match(s0, p as int);
                }
                let name = self.entries[p].0.clone();
                let cur = self.entries[p].1;
                self.entries[p] = (name, cur + 1);
                proof {
                    let e = self.entries@[p as int];
                    assert(self.entries@ == s0.update(p as int, e));
                    assert(e.0@ == s0[p as int].0@);
                    assert forall|k2: Seq<char>|
                        has_key(self.entries@, k2) == has_key(s0, k2) && value_of(
                            self.entries@,
                            k2,
                        ) == (if k2 == key@ {
                            cur + 1
                        } else {
                            value_of(s0, k2)
                        }) by {
                        lemma_update(s0, p as int, e, k2);
                    }
                    assert forall|x: int, y: int|
                        #![trigger self.entries@[x], self.entries@[y]]
                        0 <= x < y < self.entries@.len() implies self.entries@[x].0@
                        != self.entries@[y].0@ by {
                        assert(self.entries@[x].0@ == s0[x].0@);
                        assert(self.entries@[y].0@ == s0[y].0@);
                        assert(s0[x].0@ != s0[y].0@);
                    }
                    assert(self@ =~= old(self)@.insert(key@, old(self)@[key@] + 1));
                }
                Ok(())
            },
            None => {
                proof {
                    lemma_no_match(s0, owned@);
                }
                Err(MetricsError::KeyNotFound)
            },
        }
    }

    /// A copy of the current counters: one pair per registered name, each
    /// name once, every registered name present.
    pub fn snapshot(&self) -> (r: Vec<(String, i64)>)
        requires
            self.wf(),
        ensures
            keys_distinct(r@),
            forall|p: int|
                0 <= p < r@.len() ==> self@.contains_key((#[trigger] r@[p]).0@) && self@[r@[p].0@]
                    == r@[p].1,
            forall|k: Seq<char>|
                #[trigger] self@.contains_key(k) ==> exists|p: int|
                    0 <= p < r@.len() && (#[trigger] r@[p]).0@ == k,
    {
        let out = copy_entries(&self.entries);
        proof {
            assert forall|q: int| 0 <= q < out@.len() implies self@.contains_key(
                (#[trigger] out@[q]).0@,
            ) && self@[out@[q].0@] == out@[q].1 by {
                assert forall|x: int| 0 <= x < q implies (#[trigger] self.entries@[x]).0@
                    != self.entries@[q].0@ by {
                    assert(keys_distinct(self.entries@));
                }
                lemma_first_match(self.entries@, q);
            }
            assert forall|k: Seq<char>| #[trigger] self@.contains_key(k) implies exists|q: int|
                0 <= q < out@.len() && (#[trigger] out@[q]).0@ == k by {
                lemma_haskey_exists(self.entries@, k);
            }
        }
        out
    }
}

} // verus!
