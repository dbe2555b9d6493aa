use vstd::prelude::*;

use crate::errors::MetricsError;

pub mod amap;

verus! {

/// No two entries of the table carry the same counter name.
pub open spec fn keys_distinct(s: Seq<(String, i64)>) -> bool {
    forall|p: int, q: int|
        #![trigger s[p], s[q]]
        0 <= p < q < s.len() ==> s[p].0@ != s[q].0@
}

/// Whether the table holds a counter named `k`.
pub open spec fn has_key(s: Seq<(String, i64)>, k: Seq<char>) -> bool
    decreases s.len(),
{
    if s.len() == 0 {
        false
    } else {
        s[0].0@ == k || has_key(s.drop_first(), k)
    }
}

/// The value of the first entry named `k`, or `0` when there is none.
pub open spec fn value_of(s: Seq<(String, i64)>, k: Seq<char>) -> int
    decreases s.len(),
{
    if s.len() == 0 {
        0
    } else if s[0].0@ == k {
        s[0].1 as int
    } else {
        value_of(s.drop_first(), k)
    }
}

/// The table read as a map from counter name to counter value.
pub open spec fn counters_of(s: Seq<(String, i64)>) -> Map<Seq<char>, int> {
    Map::new(|k: Seq<char>| has_key(s, k), |k: Seq<char>| value_of(s, k))
}

/// The counter under `k`, reading an absent counter as zero.
pub open spec fn count_of(m: Map<Seq<char>, int>, k: Seq<char>) -> int {
    if m.contains_key(k) {
        m[k]
    } else {
        0
    }
}

/// Appending an entry leaves every other name alone and gives a fresh name
/// the appended value.
pub(crate) proof fn lemma_push(s: Seq<(String, i64)>, e: (String, i64), k: Seq<char>)
    ensures
        has_key(s.push(e), k) == (has_key(s, k) || e.0@ == k),
        value_of(s.push(e), k) == (if has_key(s, k) {
            value_of(s, k)
        } else if e.0@ == k {
            e.1 as int
        } else {
            0
        }),
    decreases s.len(),
{
    if s.len() == 0 {
        assert(s.push(e)[0] == e);
        assert(s.push(e).drop_first() =~= Seq::<(String, i64)>::empty());
        assert(!has_key(s.push(e).drop_first(), k));
        assert(value_of(s.push(e).drop_first(), k) == 0);
    } else {
        assert(s.push(e)[0] == s[0]);
        assert(s.push(e).drop_first() =~= s.drop_first().push(e));
        lemma_push(s.drop_first(), e, k);
        assert(has_key(s.push(e).drop_first(), k) == has_key(s.drop_first().push(e), k));
        assert(value_of(s.push(e).drop_first(), k) == value_of(s.drop_first().push(e), k));
    }
}

/// Every counter value the table can yield fits in `i64`.
pub(crate) proof fn lemma_value_in_range(s: Seq<(String, i64)>, k: Seq<char>)
    ensures
        i64::MIN <= value_of(s, k) <= i64::MAX,
    decreases s.len(),
{
    if s.len() > 0 {
        lemma_value_in_range(s.drop_first(), k);
    }
}

/// Replacing the first entry named `e.0` with `e` changes that name's value
/// to `e.1` and nothing else.
pub(crate) proof fn lemma_update(s: Seq<(String, i64)>, p: int, e: (String, i64), k: Seq<char>)
    requires
        0 <= p < s.len(),
        e.0@ == s[p].0@,
        forall|q: int| 0 <= q < p ==> (#[trigger] s[q]).0@ != s[p].0@,
    ensures
        has_key(s.update(p, e), k) == has_key(s, k),
        value_of(s.update(p, e), k) == (if k == s[p].0@ {
            e.1 as int
        } else {
            value_of(s, k)
        }),
    decreases s.len(),
{
    let s2 = s.update(p, e);
    if p == 0 {
        assert(s2[0] == e);
        assert(s2.drop_first() =~= s.drop_first());
    } else {
        assert(s2[0] == s[0]);
        assert(s2.drop_first() =~= s.drop_first().update(p - 1, e));
        assert forall|q: int| 0 <= q < p - 1 implies (#[trigger] s.drop_first()[q]).0@
            != s.drop_first()[p - 1].0@ by {
            assert(s.drop_first()[q] == s[q + 1]);
            assert(s.drop_first()[p - 1] == s[p]);
            assert(s[q + 1].0@ != s[p].0@);
        }
        assert(s.drop_first()[p - 1] == s[p]);
        lemma_update(s.drop_first(), p - 1, e, k);
        assert(s[0].0@ == k ==> s[0].0@ != s[p].0@);
    }
}

/// The first entry named `k` is the one a front-to-back scan stops at.
pub(crate) proof fn lemma_first_match(s: Seq<(String, i64)>, p: int)
    requires
        0 <= p < s.len(),
        forall|q: int| 0 <= q < p ==> (#[trigger] s[q]).0@ != s[p].0@,
    ensures
        has_key(s, s[p].0@),
        value_of(s, s[p].0@) == s[p].1 as int,
    decreases p,
{
    if p > 0 {
        assert forall|q: int| 0 <= q < p - 1 implies (#[trigger] s.drop_first()[q]).0@
            != s.drop_first()[p - 1].0@ by {
            assert(s.drop_first()[q] == s[q + 1]);
            assert(s.drop_first()[p - 1] == s[p]);
            assert(s[q + 1].0@ != s[p].0@);
        }
        assert(s.drop_first()[p - 1] == s[p]);
        lemma_first_match(s.drop_first(), p - 1);
        assert(s[0].0@ != s[p].0@);
    }
}

/// A name no entry carries is absent and reads as zero.
pub(crate) proof fn lemma_no_match(s: Seq<(String, i64)>, k: Seq<char>)
    requires
        forall|q: int| 0 <= q < s.len() ==> (#[trigger] s[q]).0@ != k,
    ensures
        !has_key(s, k),
        value_of(s, k) == 0,
    decreases s.len(),
{
    if s.len() > 0 {
        assert forall|q: int| 0 <= q < s.drop_first().len() implies (#[trigger] s.drop_first()[
            q
        ]).0@ != k by {
            assert(s.drop_first()[q] == s[q + 1]);
            assert(s[q + 1].0@ != k);
        }
        lemma_no_match(s.drop_first(), k);
    }
}

/// A name the table holds is carried by some entry.
pub(crate) proof fn lemma_haskey_exists(s: Seq<(String, i64)>, k: Seq<char>)
    requires
        has_key(s, k),
    ensures
        exists|p: int| 0 <= p < s.len() && (#[trigger] s[p]).0@ == k,
    decreases s.len(),
{
    if s[0].0@ == k {
        assert(0 <= 0 < s.len() && s[0].0@ == k);
    } else {
        lemma_haskey_exists(s.drop_first(), k);
        let p = choose|p: int| 0 <= p < s.drop_first().len() && (#[trigger] s.drop_first()[p]).0@
            == k;
        assert(s.drop_first()[p] == s[p + 1]);
        assert(0 <= p + 1 < s.len() && s[p + 1].0@ == k);
    }
}

/// A copy of the table, pair by pair.
pub(crate) fn copy_entries(entries: &Vec<(String, i64)>) -> (r: Vec<(String, i64)>)
    ensures
        r@ == entries@,
{
    let mut out: Vec<(String, i64)> = Vec::new();
    let mut p: usize = 0;
    while p < entries.len()
        invariant
            p <= entries@.len(),
            out@.len() == p,
            forall|q: int| 0 <= q < p ==> out@[q] == entries@[q],
        decreases entries@.len() - p,
    {
        let name = entries[p].0.clone();
        out.push((name, entries[p].1));
        p = p + 1;
    }
    proof {
        assert(out@ =~= entries@);
    }
    out
}

/// Front-to-back scan for the first entry named `key`.
pub(crate) fn find_key(entries: &Vec<(String, i64)>, key: &String) -> (r: Option<usize>)
    ensures
        match r {
            Some(p) => p < entries@.len() && entries@[p as int].0@ == key@ && forall|q: int|
                0 <= q < p ==> (#[trigger] entries@[q]).0@ != key@,
            None => forall|q: int|
                0 <= q < entries@.len() ==> (#[trigger] entries@[q]).0@ != key@,
        },
{
    let mut p: usize = 0;
    while p < entries.len()
        invariant
            p <= entries@.len(),
            forall|q: int| 0 <= q < p ==> (#[trigger] entries@[q]).0@ != key@,
        decreases entries@.len() - p,
    {
        if entries[p].0 == *key {
            return Some(p);
        }
        p = p + 1;
    }
    None
}

/// A table of named counters. Viewed as a map from counter name to counter
/// value; a counter springs into existence at zero the first time it is
/// adjusted.
#[derive(Clone)]
pub struct Metrics {
    entries: Vec<(String, i64)>,
}

impl View for Metrics {
    type V = Map<Seq<char>, int>;

    closed spec fn view(&self) -> Map<Seq<char>, int> {
        counters_of(self.entries@)
    }
}

impl Metrics {
    /// Each counter name occurs at most once in the backing table.
    pub closed spec fn wf(self) -> bool {
        keys_distinct(self.entries@)
    }

    /// An empty set of counters.
    pub fn new() -> (m: Metrics)
        ensures
            m.wf(),
            m@ == Map::<Seq<char>, int>::empty(),
    {
        let m = Metrics { entries: Vec::new() };
        proof {
            assert(m@ =~= Map::<Seq<char>, int>::empty());
        }
        m
    }

    /// Moves the counter under `key` by `delta`, treating an absent counter
    /// as zero.
    fn apply(&mut self, key: &str, delta: i64)
        requires
            old(self).wf(),
            delta == 1 || delta == -1,
            i64::MIN <= count_of(old(self)@, key@) + delta <= i64::MAX,
        ensures
            final(self).wf(),
            final(self)@ == old(self)@.insert(key@, count_of(old(self)@, key@) + delta),
    {
        let owned: String = key.to_owned();
        let ghost s0 = self.entries@;
        match find_key(&self.entries, &owned) {
            Some(p) => {
                proof {
                    lemma_first_match(s0, p as int);
                }
                let name = self.entries[p].0.clone();
                let cur = self.entries[p].1;
                self.entries[p] = (name, cur + delta);
                proof {
                    let e = self.entries@[p as int];
                    assert(self.entries@ == s0.update(p as int, e));
                    assert(e.0@ == s0[p as int].0@);
                    assert forall|k2: Seq<char>|
                        has_key(self.entries@, k2) == has_key(s0, k2) && value_of(
                            self.entries@,
                            k2,
                        ) == (if k2 == key@ {
                            cur + delta
                        } else {
                            value_of(s0, k2)
                        }) by {
                        lemma_update(s0, p as int, e, k2);
                    }
                    assert forall|x: int, y: int|
                        #![trigger self.entries@[x], self.entries@[y]]
                        0 <= x < y < self.entries@.len() implies self.entries@[x].0@
                        != self.entries@[y].0@ by {
                        assert(self.entries@[x].0@ == s0[x].0@);
                        assert(self.entries@[y].0@ == s0[y].0@);
                        assert(s0[x].0@ != s0[y].0@);
                    }
                    assert(self@ =~= old(self)@.insert(key@, count_of(old(self)@, key@) + delta));
                }
            },
            None => {
                proof {
                    lemma_no_match(s0, owned@);
                }
                let ghost kk = owned@;
                self.entries.push((owned, delta));
                proof {
                    let e = self.entries@.last();
                    assert(self.entries@ == s0.push(e));
                    assert(e.0@ == kk && e.1 == delta);
                    assert forall|k2: Seq<char>|
                        has_key(self.entries@, k2) == (has_key(s0, k2) || k2 == kk) && value_of(
                            self.entries@,
                            k2,
                        ) == (if has_key(s0, k2) {
                            value_of(s0, k2)
                        } else if k2 == kk {
                            delta as int
                        } else {
                            0
                        }) by {
                        lemma_push(s0, e, k2);
                    }
                    assert forall|x: int, y: int|
                        #![trigger self.entries@[x], self.entries@[y]]
                        0 <= x < y < self.entries@.len() implies self.entries@[x].0@
                        != self.entries@[y].0@ by {
                        if y < s0.len() {
                            assert(s0[x].0@ != s0[y].0@);
                        } else {
                            assert(self.entries@[y] == e);
                            assert(self.entries@[x] == s0[x]);
                        }
                    }
                    assert(self@ =~= old(self)@.insert(key@, count_of(old(self)@, key@) + delta));
                }
            },
        }
    }

    /// Adds one to the counter under `key`, creating it first at zero when
    /// it is absent.
    pub fn inc(&mut self, key: &str) -> (r: Result<(), MetricsError>)
        requires
            old(self).wf(),
            count_of(old(self)@, key@) < i64::MAX,
        ensures
            final(self).wf(),
            r is Ok,
            final(self)@ == old(self)@.insert(key@, count_of(old(self)@, key@) + 1),
    {
        proof {
            lemma_value_in_range(self.entries@, key@);
        }
        self.apply(key, 1);
        Ok(())
    }

    /// Takes one from the counter under `key`, creating it first at zero
    /// when it is absent.
    pub fn dec(&mut self, key: &str) -> (r: Result<(), MetricsError>)
        requires
            old(self).wf(),
            count_of(old(self)@, key@) > i64::MIN,
        ensures
            final(self).wf(),
            r is Ok,
            final(self)@ == old(self)@.insert(key@, count_of(old(self)@, key@) - 1),
    {
        proof {
            lemma_value_in_range(self.entries@, key@);
        }
        self.apply(key, -1);
        Ok(())
    }

    /// A copy of the current counters: one pair per counter, each name once,
    /// every held name present.
    pub fn snapshot(&self) -> (r: Vec<(String, i64)>)
        requires
            self.wf(),
        ensures
            keys_distinct(r@),
            forall|p: int|
                0 <= p < r@.len() ==> self@.contains_key((#[trigger] r@[p]).0@) && self@[r@[p].0@]
                    == r@[p].1,
            forall|k: Seq<char>|
                #[trigger] self@.contains_key(k) ==> exists|p: int|
                    0 <= p < r@.len() && (#[trigger] r@[p]).0@ == k,
    {
        let out = copy_entries(&self.entries);
        proof {
            assert forall|q: int| 0 <= q < out@.len() implies self@.contains_key(
                (#[trigger] out@[q]).0@,
            ) && self@[out@[q].0@] == out@[q].1 by {
                assert forall|x: int| 0 <= x < q implies (#[trigger] self.entries@[x]).0@
                    != self.entries@[q].0@ by {
                    assert(keys_distinct(self.entries@));
                }
                lemma_first_match(self.entries@, q);
            }
            assert forall|k: Seq<char>| #[trigger] self@.contains_key(k) implies exists|q: int|
                0 <= q < out@.len() && (#[trigger] out@[q]).0@ == k by {
                lemma_haskey_exists(self.entries@, k);
            }
        }
        out
    }
}

impl Default for Metrics {
    /// An empty set of counters.
    fn default() -> (m: Metrics)
        ensures
            m.wf(),
            m@ == Map::<Seq<char>, int>::empty(),
    {
        Metrics::new()
    }
}

} // verus!
