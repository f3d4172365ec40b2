//! A small string-keyed map of second counters.
//!
//! The ledger keeps one of these per aggregate (today, all time, last
//! seen).  It is an association vector with unique keys; its view is the
//! sequence of `(name, seconds)` pairs in insertion order, which the
//! reporter's ranking depends on for its deterministic tie order.

use vstd::prelude::*;
use vstd::pervasive::VecAdditionalExecFns;

verus! {

/// True when `s` holds some pair whose key is `k`.
pub open spec fn has_key(s: Seq<(Seq<char>, u64)>, k: Seq<char>) -> bool {
    exists|i: int| 0 <= i < s.len() && s[i].0 == k
}

/// Index of the first pair whose key is `k` (meaningful when `has_key`).
pub open spec fn key_index(s: Seq<(Seq<char>, u64)>, k: Seq<char>) -> int
    decreases s.len(),
{
    if s.len() == 0 {
        0
    } else if s[0].0 == k {
        0
    } else {
        1 + key_index(s.drop_first(), k)
    }
}

/// Value stored under `k` (meaningful when `has_key`).
pub open spec fn value_of(s: Seq<(Seq<char>, u64)>, k: Seq<char>) -> u64 {
    s[key_index(s, k)].1
}

/// Every key occurs at most once.
pub open spec fn keys_unique(s: Seq<(Seq<char>, u64)>) -> bool {
    forall|i: int, j: int| 0 <= i < j < s.len() ==> s[i].0 != s[j].0
}

/// Sum of all stored values, as an unbounded integer.
pub open spec fn sum_secs(s: Seq<(Seq<char>, u64)>) -> int
    decreases s.len(),
{
    if s.len() == 0 {
        0
    } else {
        s[0].1 + sum_secs(s.drop_first())
    }
}

/// `s` with `c` added to the value under `k`, or a new `(k, c)` pair
/// appended when `k` is absent.
pub open spec fn bump(s: Seq<(Seq<char>, u64)>, k: Seq<char>, c: u64) -> Seq<(Seq<char>, u64)> {
    if has_key(s, k) {
        s.update(key_index(s, k), (k, (value_of(s, k) + c) as u64))
    } else {
        s.push((k, c))
    }
}

/// `s` with the value under `k` replaced by `v`, or a new `(k, v)` pair
/// appended when `k` is absent.
pub open spec fn put(s: Seq<(Seq<char>, u64)>, k: Seq<char>, v: u64) -> Seq<(Seq<char>, u64)> {
    if has_key(s, k) {
        s.update(key_index(s, k), (k, v))
    } else {
        s.push((k, v))
    }
}

/// The first match at position `i` is exactly what `key_index` finds.
pub proof fn lemma_key_index_of_first(s: Seq<(Seq<char>, u64)>, k: Seq<char>, i: int)
    requires
        0 <= i < s.len(),
        s[i].0 == k,
        forall|j: int| 0 <= j < i ==> s[j].0 != k,
    ensures
        has_key(s, k),
        key_index(s, k) == i,
        value_of(s, k) == s[i].1,
    decreases i,
{
    if i == 0 {
    } else {
        assert(s[0].0 != k);
        let t = s.drop_first();
        assert(forall|j: int| 0 <= j < i - 1 ==> t[j].0 != k);
        lemma_key_index_of_first(t, k, i - 1);
    }
}

/// `key_index` lands on a pair whose key is `k`, before any other match.
pub proof fn lemma_key_index_props(s: Seq<(Seq<char>, u64)>, k: Seq<char>)
    requires
        has_key(s, k),
    ensures
        0 <= key_index(s, k) < s.len(),
        s[key_index(s, k)].0 == k,
        forall|j: int| 0 <= j < key_index(s, k) ==> s[j].0 != k,
    decreases s.len(),
{
    if s.len() == 0 {
    } else if s[0].0 == k {
    } else {
        let t = s.drop_first();
        let w = choose|i: int| 0 <= i < s.len() && s[i].0 == k;
        assert(t[w - 1].0 == k);
        lemma_key_index_props(t, k);
        assert forall|j: int| 0 <= j < key_index(s, k) implies s[j].0 != k by {
            if j > 0 {
                assert(s[j] == t[j - 1]);
            }
        }
    }
}

/// The whole sum is never negative.
pub proof fn lemma_sum_nonneg(s: Seq<(Seq<char>, u64)>)
    ensures
        sum_secs(s) >= 0,
    decreases s.len(),
{
    if s.len() > 0 {
        lemma_sum_nonneg(s.drop_first());
    }
}

/// Replacing the pair at `i` moves the sum by the difference of values.
pub proof fn lemma_sum_update(s: Seq<(Seq<char>, u64)>, i: int, p: (Seq<char>, u64))
    requires
        0 <= i < s.len(),
    ensures
        sum_secs(s.update(i, p)) == sum_secs(s) - s[i].1 + p.1,
    decreases s.len(),
{
    if i == 0 {
        assert(s.update(0, p).drop_first() =~= s.drop_first());
    } else {
        assert(s.update(i, p).drop_first() =~= s.drop_first().update(i - 1, p));
        lemma_sum_update(s.drop_first(), i - 1, p);
    }
}

/// Appending a pair adds its value to the sum.
pub proof fn lemma_sum_push(s: Seq<(Seq<char>, u64)>, p: (Seq<char>, u64))
    ensures
        sum_secs(s.push(p)) == sum_secs(s) + p.1,
    decreases s.len(),
{
    if s.len() == 0 {
        assert(s.push(p)[0] == p);
        assert(s.push(p).drop_first() =~= Seq::<(Seq<char>, u64)>::empty());
        assert(sum_secs(s.push(p)) == p.1 + sum_secs(Seq::<(Seq<char>, u64)>::empty()));
    } else {
        let t = s.drop_first();
        assert(s.push(p)[0] == s[0]);
        assert(s.push(p).drop_first() =~= t.push(p));
        lemma_sum_push(t, p);
        assert(sum_secs(s.push(p)) == s[0].1 + sum_secs(t.push(p)));
        assert(sum_secs(s) == s[0].1 + sum_secs(t));
    }
}

/// No single value exceeds the whole sum.
pub proof fn lemma_value_le_sum(s: Seq<(Seq<char>, u64)>, i: int)
    requires
        0 <= i < s.len(),
    ensures
        s[i].1 <= sum_secs(s),
    decreases s.len(),
{
    lemma_sum_nonneg(s.drop_first());
    if i > 0 {
        lemma_value_le_sum(s.drop_first(), i - 1);
    }
}

/// Extending a prefix by one pair adds that pair's value to its sum.
pub proof fn lemma_sum_take_step(s: Seq<(Seq<char>, u64)>, i: int)
    requires
        0 <= i < s.len(),
    ensures
        sum_secs(s.take(i + 1)) == sum_secs(s.take(i)) + s[i].1,
{
    assert(s.take(i + 1) =~= s.take(i).push(s[i]));
    lemma_sum_push(s.take(i), s[i]);
}

/// A stored value never exceeds the sum of all values.
pub proof fn lemma_value_of_le_sum(s: Seq<(Seq<char>, u64)>, k: Seq<char>)
    requires
        has_key(s, k),
    ensures
        value_of(s, k) <= sum_secs(s),
{
    lemma_key_index_props(s, k);
    lemma_value_le_sum(s, key_index(s, k));
}

/// `bump` moves the sum by exactly the credited amount.
pub proof fn lemma_sum_bump(s: Seq<(Seq<char>, u64)>, k: Seq<char>, c: u64)
    requires
        has_key(s, k) ==> value_of(s, k) + c <= u64::MAX,
    ensures
        sum_secs(bump(s, k, c)) == sum_secs(s) + c,
{
    if has_key(s, k) {
        lemma_key_index_props(s, k);
        lemma_sum_update(s, key_index(s, k), (k, (value_of(s, k) + c) as u64));
    } else {
        lemma_sum_push(s, (k, c));
    }
}

/// `bump` and `put` keep the keys unique.
pub proof fn lemma_write_keeps_unique(s: Seq<(Seq<char>, u64)>, k: Seq<char>, c: u64, v: u64)
    requires
        keys_unique(s),
    ensures
        keys_unique(bump(s, k, c)),
        keys_unique(put(s, k, v)),
{
    if has_key(s, k) {
        lemma_key_index_props(s, k);
    }
}

/// Seconds accumulated per application name.
pub struct AppMap {
    entries: Vec<(String, u64)>,
}

impl View for AppMap {
    type V = Seq<(Seq<char>, u64)>;

    closed spec fn view(&self) -> Seq<(Seq<char>, u64)> {
        self.entries@.map_values(|p: (String, u64)| (p.0@, p.1))
    }
}

impl AppMap {
    /// The map never holds two pairs with the same key.
    pub open spec fn wf(&self) -> bool {
        keys_unique(self@)
    }

    /// An empty map.
    pub fn new() -> (m: Self)
        ensures
            m@ == Seq::<(Seq<char>, u64)>::empty(),
    {
        let m = AppMap { entries: Vec::new() };
        proof {
            assert(m@ =~= Seq::<(Seq<char>, u64)>::empty());
        }
        m
    }

    /// How many applications the map holds.
    pub fn len(&self) -> (n: usize)
        ensures
            n == self@.len(),
    {
        self.entries.len()
    }

    /// Position of the first pair named `name`, if any.
    fn find(&self, name: &String) -> (r: Option<usize>)
        ensures
            match r {
                Some(i) => i < self@.len() && self@[i as int].0 == name@ && forall|j: int|
                    0 <= j < i ==> self@[j].0 != name@,
                None => !has_key(self@, name@),
            },
    {
        let n = self.entries.len();
        let mut i: usize = 0;
        while i < n
            invariant
                i <= n,
                n == self@.len(),
                forall|j: int| 0 <= j < i ==> self@[j].0 != name@,
            decreases n - i,
        {
            if self.entries[i].0 == *name {
                return Some(i);
            }
            i = i + 1;
        }
        None
    }

    /// The seconds recorded under `name`, if any.
    pub fn get(&self, name: &String) -> (r: Option<u64>)
        ensures
            r == if has_key(self@, name@) {
                Some(value_of(self@, name@))
            } else {
                None::<u64>
            },
    {
        match self.find(name) {
            Some(i) => {
                proof {
                    lemma_key_index_of_first(self@, name@, i as int);
                }
                Some(self.entries[i].1)
            },
            None => None,
        }
    }

    /// Add `c` seconds to the counter under `name`, creating it at zero
    /// first when absent.
    pub fn add_secs(&mut self, name: &String, c: u64)
        requires
            old(self).wf(),
            has_key(old(self)@, name@) ==> value_of(old(self)@, name@) + c <= u64::MAX,
        ensures
            final(self)@ == bump(old(self)@, name@, c),
            final(self).wf(),
    {
        proof {
            lemma_write_keeps_unique(old(self)@, name@, c, 0);
        }
        match self.find(name) {
            Some(i) => {
                proof {
                    lemma_key_index_of_first(self@, name@, i as int);
                }
                let v = self.entries[i].1;
                self.entries.set(i, (name.clone(), v + c));
                proof {
                    assert(self@ =~= bump(old(self)@, name@, c));
                }
            },
            None => {
                self.entries.push((name.clone(), c));
                proof {
                    assert(self@ =~= bump(old(self)@, name@, c));
                }
            },
        }
    }

    /// Overwrite the value under `name`, creating the pair when absent.
    pub fn set_secs(&mut self, name: &String, v: u64)
        requires
            old(self).wf(),
        ensures
            final(self)@ == put(old(self)@, name@, v),
            final(self).wf(),
    {
        proof {
            lemma_write_keeps_unique(old(self)@, name@, 0, v);
        }
        match self.find(name) {
            Some(i) => {
                proof {
                    lemma_key_index_of_first(self@, name@, i as int);
                }
                self.entries.set(i, (name.clone(), v));
                proof {
                    assert(self@ =~= put(old(self)@, name@, v));
                }
            },
            None => {
                self.entries.push((name.clone(), v));
                proof {
                    assert(self@ =~= put(old(self)@, name@, v));
                }
            },
        }
    }

    /// Drop every pair.
    pub fn clear(&mut self)
        ensures
            final(self)@ == Seq::<(Seq<char>, u64)>::empty(),
    {
        self.entries.clear();
        proof {
            assert(self@ =~= Seq::<(Seq<char>, u64)>::empty());
        }
    }

    /// The pair at position `i`, with the name cloned out.
    pub fn pair(&self, i: usize) -> (p: (String, u64))
        requires
            i < self@.len(),
        ensures
            (p.0@, p.1) == self@[i as int],
    {
        let entry = &self.entries[i];
        (entry.0.clone(), entry.1)
    }

    /// The value at position `i`.
    pub fn value_at(&self, i: usize) -> (v: u64)
        requires
            i < self@.len(),
        ensures
            v == self@[i as int].1,
    {
        self.entries[i].1
    }
}

} // verus!
