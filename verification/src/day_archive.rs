//! The archive of completed days.
//!
//! Each entry maps an epoch-day number to the per-application counters
//! that were accumulated on that day.  Entries are written when a day
//! rolls over or when the current day is reset, and are never edited
//! afterwards; writing the same day twice replaces the entry.

use vstd::prelude::*;
use vstd::pervasive::VecAdditionalExecFns;
use crate::app_map::AppMap;

verus! {

/// The mapping that a sequence of `(day, counters)` pairs denotes:
/// later pairs win, though the archive never stores a day twice.
pub open spec fn days_map(s: Seq<(u64, AppMap)>) -> Map<u64, Seq<(Seq<char>, u64)>>
    decreases s.len(),
{
    if s.len() == 0 {
        Map::empty()
    } else {
        days_map(s.drop_last()).insert(s.last().0, s.last().1@)
    }
}

/// Archive of per-day counters, keyed by epoch-day number.
pub struct DayArchive {
    days: Vec<(u64, AppMap)>,
}

/// A pair whose day no other pair carries denotes that day's entry.
proof fn lemma_days_map_found(s: Seq<(u64, AppMap)>, i: int)
    requires
        0 <= i < s.len(),
        forall|j: int, k: int| 0 <= j < k < s.len() ==> s[j].0 != s[k].0,
    ensures
        days_map(s).contains_key(s[i].0),
        days_map(s)[s[i].0] == s[i].1@,
    decreases s.len(),
{
    if i == s.len() - 1 {
    } else {
        assert(s.last().0 != s[i].0);
        assert(s.drop_last()[i] == s[i]);
        lemma_days_map_found(s.drop_last(), i);
    }
}

/// A day carried by no pair has no entry.
proof fn lemma_days_map_absent(s: Seq<(u64, AppMap)>, d: u64)
    requires
        forall|i: int| 0 <= i < s.len() ==> s[i].0 != d,
    ensures
        !days_map(s).contains_key(d),
    decreases s.len(),
{
    if s.len() > 0 {
        lemma_days_map_absent(s.drop_last(), d);
    }
}

/// Replacing the pair at `i` by one with the same day re-points that
/// day's entry and changes nothing else.
proof fn lemma_days_map_update(s: Seq<(u64, AppMap)>, i: int, m: AppMap)
    requires
        0 <= i < s.len(),
        forall|j: int, k: int| 0 <= j < k < s.len() ==> s[j].0 != s[k].0,
    ensures
        days_map(s.update(i, (s[i].0, m))) =~= days_map(s).insert(s[i].0, m@),
    decreases s.len(),
{
    let s2 = s.update(i, (s[i].0, m));
    if i == s.len() - 1 {
        assert(s2.drop_last() =~= s.drop_last());
        assert(s2.last() == (s[i].0, m));
    } else {
        assert(s2.drop_last() =~= s.drop_last().update(i, (s[i].0, m)));
        assert(s2.last() == s.last());
        lemma_days_map_update(s.drop_last(), i, m);
        assert(s.last().0 != s[i].0);
    }
}

/// With unique days, the denoted map has exactly one entry per pair.
proof fn lemma_days_map_card(s: Seq<(u64, AppMap)>)
    requires
        forall|i: int, j: int| 0 <= i < j < s.len() ==> s[i].0 != s[j].0,
    ensures
        days_map(s).dom().finite(),
        days_map(s).dom().len() == s.len(),
    decreases s.len(),
{
    if s.len() > 0 {
        let t = s.drop_last();
        lemma_days_map_card(t);
        lemma_days_map_absent(t, s.last().0);
        assert(days_map(s).dom() =~= days_map(t).dom().insert(s.last().0));
    }
}

impl View for DayArchive {
    type V = Map<u64, Seq<(Seq<char>, u64)>>;

    closed spec fn view(&self) -> Map<u64, Seq<(Seq<char>, u64)>> {
        days_map(self.days@)
    }
}

impl DayArchive {
    /// No two entries carry the same day.
    pub closed spec fn wf(&self) -> bool {
        forall|i: int, j: int|
            0 <= i < j < self.days@.len() ==> self.days@[i].0 != self.days@[j].0
    }

    /// An empty archive.
    pub fn new() -> (a: Self)
        ensures
            a@ == Map::<u64, Seq<(Seq<char>, u64)>>::empty(),
            a.wf(),
    {
        DayArchive { days: Vec::new() }
    }

    /// Position of the entry for day `d`, if any.
    fn find(&self, d: u64) -> (r: Option<usize>)
        ensures
            match r {
                Some(i) => i < self.days@.len() && self.days@[i as int].0 == d,
                None => forall|i: int| 0 <= i < self.days@.len() ==> self.days@[i].0 != d,
            },
    {
        let n = self.days.len();
        let mut i: usize = 0;
        while i < n
            invariant
                i <= n,
                n == self.days@.len(),
                forall|j: int| 0 <= j < i ==> self.days@[j].0 != d,
            decreases n - i,
        {
            if self.days[i].0 == d {
                return Some(i);
            }
            i = i + 1;
        }
        None
    }

    /// Write day `d`'s counters, replacing any earlier entry for `d`.
    pub fn insert(&mut self, d: u64, m: AppMap)
        requires
            old(self).wf(),
        ensures
            final(self)@ == old(self)@.insert(d, m@),
            final(self).wf(),
    {
        match self.find(d) {
            Some(i) => {
                proof {
                    lemma_days_map_update(self.days@, i as int, m);
                }
                self.days.set(i, (d, m));
            },
            None => {
                self.days.push((d, m));
                proof {
                    assert(self.days@.drop_last() =~= old(self).days@);
                    assert(self@ =~= old(self)@.insert(d, m@));
                }
            },
        }
    }

    /// How many days are archived.
    pub fn day_count(&self) -> (n: usize)
        requires
            self.wf(),
        ensures
            n == self@.dom().len(),
    {
        proof {
            lemma_days_map_card(self.days@);
        }
        self.days.len()
    }

    /// The archived day at position `i`: its day number and counters.
    pub fn day_at(&self, i: usize) -> (r: (u64, &AppMap))
        requires
            self.wf(),
            i < self@.dom().len(),
        ensures
            self@.contains_key(r.0),
            r.1@ == self@[r.0],
    {
        proof {
            lemma_days_map_card(self.days@);
            lemma_days_map_found(self.days@, i as int);
        }
        let entry = &self.days[i];
        (entry.0, &entry.1)
    }

    /// The counters archived for day `d`, if any.
    pub fn get(&self, d: u64) -> (r: Option<&AppMap>)
        requires
            self.wf(),
        ensures
            match r {
                Some(m) => self@.contains_key(d) && m@ == self@[d],
                None => !self@.contains_key(d),
            },
    {
        match self.find(d) {
            Some(i) => {
                proof {
                    lemma_days_map_found(self.days@, i as int);
                }
                Some(&self.days[i].1)
            },
            None => {
                proof {
                    lemma_days_map_absent(self.days@, d);
                }
                None
            },
        }
    }
}

} // verus!
