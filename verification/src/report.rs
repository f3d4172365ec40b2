//! The stats reporter: a read-only, ranked projection of the ledger.
//!
//! Ranking sorts the pairs of a counter map by seconds, descending,
//! with a stable order on ties, keeps the top entries, and annotates
//! each with its share of the total in tenths of a percent and with
//! the time its application was last seen.

use vstd::prelude::*;
use vstd::arithmetic::div_mod::{lemma_div_is_ordered, lemma_div_multiples_vanish};
use vstd::arithmetic::mul::lemma_mul_inequality;
use crate::app_map::AppMap;
use crate::app_map::{has_key, sum_secs, value_of};
use crate::app_map::{lemma_sum_nonneg, lemma_sum_take_step, lemma_value_le_sum};
use crate::ledger::{ActivityTracker, TrackerView, elapsed_since, opt_name};

verus! {

/// Most entries a ranked list shows.
pub const RANK_LIMIT: usize = 20;

/// One row of a ranked usage list.
pub struct AppUsage {
    /// Application name.
    pub name: String,
    /// Seconds accumulated in the aggregate being ranked.
    pub seconds: u64,
    /// Share of the aggregate's total, in tenths of a percent.
    pub percent_tenths: u64,
    /// Unix time the application was last observed, zero when never.
    pub last_seen: u64,
}

/// Mathematical image of [`AppUsage`].
#[verifier::ext_equal]
pub ghost struct UsageView {
    pub name: Seq<char>,
    pub seconds: u64,
    pub percent_tenths: u64,
    pub last_seen: u64,
}

impl View for AppUsage {
    type V = UsageView;

    open spec fn view(&self) -> UsageView {
        UsageView {
            name: self.name@,
            seconds: self.seconds,
            percent_tenths: self.percent_tenths,
            last_seen: self.last_seen,
        }
    }
}

/// The point-in-time summary the reporter returns.
pub struct ActivityStats {
    /// Today's usage, ranked by seconds descending.
    pub today: Vec<AppUsage>,
    /// All-time usage, ranked by seconds descending.
    pub all_time: Vec<AppUsage>,
    /// Seconds since the current session began.
    pub session_duration: u64,
    /// Running total of seconds tracked today.
    pub total_today: u64,
    /// The most recently observed focused application.
    pub current_app: Option<String>,
}

/// Mathematical image of [`ActivityStats`].
#[verifier::ext_equal]
pub ghost struct StatsView {
    pub today: Seq<UsageView>,
    pub all_time: Seq<UsageView>,
    pub session_duration: u64,
    pub total_today: u64,
    pub current_app: Option<Seq<char>>,
}

impl View for ActivityStats {
    type V = StatsView;

    open spec fn view(&self) -> StatsView {
        StatsView {
            today: self.today@.map_values(|u: AppUsage| u@),
            all_time: self.all_time@.map_values(|u: AppUsage| u@),
            session_duration: self.session_duration,
            total_today: self.total_today,
            current_app: opt_name(self.current_app),
        }
    }
}

/// `x` inserted into `s` before the first strictly smaller value, so a
/// tie keeps the earlier element first.
pub open spec fn insert_desc(
    x: (Seq<char>, u64),
    s: Seq<(Seq<char>, u64)>,
) -> Seq<(Seq<char>, u64)>
    decreases s.len(),
{
    if s.len() == 0 {
        seq![x]
    } else if x.1 >= s[0].1 {
        seq![x] + s
    } else {
        seq![s[0]] + insert_desc(x, s.drop_first())
    }
}

/// Stable insertion sort by seconds, descending.
pub open spec fn sort_desc(s: Seq<(Seq<char>, u64)>) -> Seq<(Seq<char>, u64)>
    decreases s.len(),
{
    if s.len() == 0 {
        s
    } else {
        insert_desc(s[0], sort_desc(s.drop_first()))
    }
}

/// Seconds never increase along the sequence.
pub open spec fn sorted_desc(s: Seq<(Seq<char>, u64)>) -> bool {
    forall|i: int, j: int| 0 <= i <= j < s.len() ==> s[i].1 >= s[j].1
}

/// How many times the pair `p` occurs in `s`.
pub open spec fn count_of(s: Seq<(Seq<char>, u64)>, p: (Seq<char>, u64)) -> int
    decreases s.len(),
{
    if s.len() == 0 {
        0
    } else {
        (if s[0] == p {
            1int
        } else {
            0int
        }) + count_of(s.drop_first(), p)
    }
}

/// Every value of `s` is at most `v`.
pub open spec fn all_le(s: Seq<(Seq<char>, u64)>, v: u64) -> bool {
    forall|i: int| 0 <= i < s.len() ==> s[i].1 <= v
}

/// At most the first `RANK_LIMIT` entries of `s`.
pub open spec fn capped(s: Seq<(Seq<char>, u64)>) -> Seq<(Seq<char>, u64)> {
    if s.len() <= RANK_LIMIT {
        s
    } else {
        s.take(RANK_LIMIT as int)
    }
}

/// Share of `total` that `secs` is, in tenths of a percent, rounded
/// down (`total` is at least one).
pub open spec fn tenths_of(secs: u64, total: int) -> u64 {
    (secs * 1000 / total) as u64
}

/// The ranked row for the pair `p`.
pub open spec fn usage_of(
    p: (Seq<char>, u64),
    total: int,
    seen: Seq<(Seq<char>, u64)>,
) -> UsageView {
    UsageView {
        name: p.0,
        seconds: p.1,
        percent_tenths: tenths_of(p.1, total),
        last_seen: if has_key(seen, p.0) {
            value_of(seen, p.0)
        } else {
            0
        },
    }
}

/// A total floored at one, so an empty aggregate divides by one.
pub open spec fn safe_total(total: int) -> int {
    if total >= 1 {
        total
    } else {
        1
    }
}

/// The whole ranking of a counter map.
pub open spec fn ranked(
    entries: Seq<(Seq<char>, u64)>,
    total: int,
    seen: Seq<(Seq<char>, u64)>,
) -> Seq<UsageView> {
    capped(sort_desc(entries)).map_values(
        |p: (Seq<char>, u64)| usage_of(p, total, seen),
    )
}

/// What a summary taken at Unix time `now` holds.
pub open spec fn summary_of(t: TrackerView, now: u64) -> StatsView {
    StatsView {
        today: ranked(t.data.today, safe_total(t.data.total_today as int), t.data.last_seen),
        all_time: ranked(t.data.all_time, safe_total(sum_secs(t.data.all_time)), t.data.last_seen),
        session_duration: elapsed_since(t.data.session_start, now),
        total_today: t.data.total_today,
        current_app: t.last_app,
    }
}

/// Inserting keeps a descending order.
pub proof fn lemma_insert_desc_sorted(x: (Seq<char>, u64), s: Seq<(Seq<char>, u64)>)
    requires
        sorted_desc(s),
    ensures
        sorted_desc(insert_desc(x, s)),
    decreases s.len(),
{
    if s.len() == 0 {
    } else if x.1 >= s[0].1 {
        let r = seq![x] + s;
        assert forall|i: int, j: int| 0 <= i <= j < r.len() implies r[i].1 >= r[j].1 by {
            if i > 0 {
                assert(r[i] == s[i - 1]);
            }
            if j > 0 {
                assert(r[j] == s[j - 1]);
            }
        }
    } else {
        let t = s.drop_first();
        lemma_insert_desc_sorted(x, t);
        lemma_insert_desc_all_le(x, t, s[0].1);
        let r = seq![s[0]] + insert_desc(x, t);
        assert forall|i: int, j: int| 0 <= i <= j < r.len() implies r[i].1 >= r[j].1 by {
            if i > 0 {
                assert(r[i] == insert_desc(x, t)[i - 1]);
            }
            if j > 0 {
                assert(r[j] == insert_desc(x, t)[j - 1]);
            }
        }
    }
}

/// Inserting a small enough value keeps an upper bound on all values.
pub proof fn lemma_insert_desc_all_le(x: (Seq<char>, u64), s: Seq<(Seq<char>, u64)>, v: u64)
    requires
        all_le(s, v),
        x.1 <= v,
    ensures
        all_le(insert_desc(x, s), v),
    decreases s.len(),
{
    if s.len() == 0 {
    } else if x.1 >= s[0].1 {
    } else {
        let t = s.drop_first();
        assert(all_le(t, v));
        lemma_insert_desc_all_le(x, t, v);
        let r = seq![s[0]] + insert_desc(x, t);
        assert forall|i: int| 0 <= i < r.len() implies r[i].1 <= v by {
            if i > 0 {
                assert(r[i] == insert_desc(x, t)[i - 1]);
            }
        }
    }
}

/// Inserting adds one occurrence of the inserted pair and keeps the rest.
pub proof fn lemma_insert_desc_count(
    x: (Seq<char>, u64),
    s: Seq<(Seq<char>, u64)>,
    p: (Seq<char>, u64),
)
    ensures
        count_of(insert_desc(x, s), p) == count_of(s, p) + (if p == x {
            1int
        } else {
            0int
        }),
    decreases s.len(),
{
    if s.len() == 0 {
        let r = seq![x];
        assert(r[0] == x);
        assert(r.drop_first() =~= Seq::<(Seq<char>, u64)>::empty());
        assert(count_of(r, p) == (if r[0] == p {
            1int
        } else {
            0int
        }) + count_of(r.drop_first(), p));
        assert(count_of(Seq::<(Seq<char>, u64)>::empty(), p) == 0);
    } else if x.1 >= s[0].1 {
        let r = seq![x] + s;
        assert(r[0] == x);
        assert(r.drop_first() =~= s);
        assert(count_of(r, p) == (if r[0] == p {
            1int
        } else {
            0int
        }) + count_of(s, p));
    } else {
        let t = s.drop_first();
        lemma_insert_desc_count(x, t, p);
        let r = seq![s[0]] + insert_desc(x, t);
        assert(insert_desc(x, s) == r);
        assert(r[0] == s[0]);
        assert(r.drop_first() =~= insert_desc(x, t));
        assert(count_of(r, p) == (if r[0] == p {
            1int
        } else {
            0int
        }) + count_of(insert_desc(x, t), p));
        assert(count_of(s, p) == (if s[0] == p {
            1int
        } else {
            0int
        }) + count_of(t, p));
    }
}

/// Sorting neither adds nor loses a pair.
pub proof fn lemma_sort_desc_count(s: Seq<(Seq<char>, u64)>, p: (Seq<char>, u64))
    ensures
        count_of(sort_desc(s), p) == count_of(s, p),
    decreases s.len(),
{
    if s.len() > 0 {
        lemma_sort_desc_count(s.drop_first(), p);
        lemma_insert_desc_count(s[0], sort_desc(s.drop_first()), p);
    }
}

/// The sort's result is descending by seconds.
pub proof fn lemma_sort_desc_sorted(s: Seq<(Seq<char>, u64)>)
    ensures
        sorted_desc(sort_desc(s)),
    decreases s.len(),
{
    if s.len() > 0 {
        lemma_sort_desc_sorted(s.drop_first());
        lemma_insert_desc_sorted(s[0], sort_desc(s.drop_first()));
    }
}

/// Inserting grows the length by one.
pub proof fn lemma_insert_desc_len(x: (Seq<char>, u64), s: Seq<(Seq<char>, u64)>)
    ensures
        insert_desc(x, s).len() == s.len() + 1,
    decreases s.len(),
{
    if s.len() > 0 && !(x.1 >= s[0].1) {
        lemma_insert_desc_len(x, s.drop_first());
    }
}

/// Sorting keeps the length.
pub proof fn lemma_sort_desc_len(s: Seq<(Seq<char>, u64)>)
    ensures
        sort_desc(s).len() == s.len(),
    decreases s.len(),
{
    if s.len() > 0 {
        lemma_sort_desc_len(s.drop_first());
        lemma_insert_desc_len(s[0], sort_desc(s.drop_first()));
    }
}

/// A pair that occurs somewhere has a positive count.
pub proof fn lemma_count_at_index(s: Seq<(Seq<char>, u64)>, i: int)
    requires
        0 <= i < s.len(),
    ensures
        count_of(s, s[i]) > 0,
    decreases s.len(),
{
    if s[0] == s[i] {
        lemma_count_nonneg(s.drop_first(), s[i]);
    } else {
        assert(s.drop_first()[i - 1] == s[i]);
        lemma_count_at_index(s.drop_first(), i - 1);
    }
}

/// Counts are never negative.
pub proof fn lemma_count_nonneg(s: Seq<(Seq<char>, u64)>, p: (Seq<char>, u64))
    ensures
        count_of(s, p) >= 0,
    decreases s.len(),
{
    if s.len() > 0 {
        lemma_count_nonneg(s.drop_first(), p);
    }
}

/// A pair with a positive count occurs somewhere.
pub proof fn lemma_count_pos_occurs(s: Seq<(Seq<char>, u64)>, p: (Seq<char>, u64))
    requires
        count_of(s, p) > 0,
    ensures
        exists|i: int| 0 <= i < s.len() && s[i] == p,
    decreases s.len(),
{
    if s.len() > 0 && s[0] != p {
        lemma_count_pos_occurs(s.drop_first(), p);
        let w = choose|i: int| 0 <= i < s.drop_first().len() && s.drop_first()[i] == p;
        assert(s[w + 1] == p);
    }
}

/// The share is never more than the whole: at most a thousand tenths.
pub proof fn lemma_tenths_at_most_thousand(secs: u64, total: int)
    requires
        1 <= total,
        secs <= total,
    ensures
        secs * 1000 / total <= 1000,
        tenths_of(secs, total) == secs * 1000 / total,
{
    lemma_mul_inequality(secs as int, total, 1000);
    lemma_div_is_ordered(secs * 1000, total * 1000, total);
    lemma_div_multiples_vanish(1000, total);
}

/// Every value in the sorted sequence already stood in the unsorted
/// one, so it is bounded by the unsorted sequence's sum.
pub proof fn lemma_sorted_values_le_sum(s: Seq<(Seq<char>, u64)>)
    ensures
        forall|i: int| 0 <= i < sort_desc(s).len() ==> sort_desc(s)[i].1 <= sum_secs(s),
{
    let r = sort_desc(s);
    assert forall|i: int| 0 <= i < r.len() implies r[i].1 <= sum_secs(s) by {
        lemma_count_at_index(r, i);
        lemma_sort_desc_count(s, r[i]);
        lemma_count_pos_occurs(s, r[i]);
        let j = choose|j: int| 0 <= j < s.len() && s[j] == r[i];
        lemma_value_le_sum(s, j);
    }
}

/// Mapping a function over a sequence commutes with appending.
proof fn lemma_map_values_push<A, B>(s: Seq<A>, x: A, f: spec_fn(A) -> B)
    ensures
        s.push(x).map_values(f) == s.map_values(f).push(f(x)),
{
    assert(s.push(x).map_values(f) =~= s.map_values(f).push(f(x)));
}

/// The view of a vector of owned pairs.
pub open spec fn pairs_view(s: Seq<(String, u64)>) -> Seq<(Seq<char>, u64)> {
    s.map_values(|p: (String, u64)| (p.0@, p.1))
}

/// All of a counter map's pairs, in its own order.
fn entries_vec(m: &AppMap) -> (r: Vec<(String, u64)>)
    ensures
        pairs_view(r@) == m@,
{
    let n = m.len();
    let mut r: Vec<(String, u64)> = Vec::new();
    let mut i: usize = 0;
    proof {
        assert(pairs_view(r@) =~= m@.take(0));
    }
    while i < n
        invariant
            i <= n,
            n == m@.len(),
            pairs_view(r@) == m@.take(i as int),
        decreases n - i,
    {
        let p = m.pair(i);
        let ghost prev = r@;
        let ghost pfull = p;
        let ghost pv = (p.0@, p.1);
        proof {
            assert(pairs_view(prev) == m@.take(i as int));
            assert(pairs_view(prev).len() == i as int);
            assert(prev.len() == i as int);
        }
        r.push(p);
        proof {
            assert(r@ == prev.push(pfull));
            assert(r@.len() == i as int + 1);
            assert forall|j: int| 0 <= j < i as int + 1 implies pairs_view(r@)[j] == m@.take(
                i as int + 1,
            )[j] by {
                if j < i as int {
                    assert(r@[j] == prev[j]);
                    assert(pairs_view(prev)[j] == m@.take(i as int)[j]);
                } else {
                    assert(r@[j] == pfull);
                    assert((pfull.0@, pfull.1) == pv);
                }
            }
            assert(pairs_view(r@) =~= m@.take(i as int + 1));
        }
        i = i + 1;
    }
    proof {
        assert(m@.take(n as int) =~= m@);
    }
    r
}

/// The sum of a counter map's values, wide enough never to overflow.
fn sum_total(m: &AppMap) -> (t: u128)
    ensures
        t as int == sum_secs(m@),
{
    let n = m.len();
    let mut t: u128 = 0;
    let mut i: usize = 0;
    proof {
        assert(m@.take(0) =~= Seq::<(Seq<char>, u64)>::empty());
    }
    while i < n
        invariant
            i <= n,
            n == m@.len(),
            t as int == sum_secs(m@.take(i as int)),
            t as int <= (i as int) * (u64::MAX as int),
        decreases n - i,
    {
        let v = m.value_at(i);
        proof {
            lemma_sum_take_step(m@, i as int);
            assert((i as int) * (u64::MAX as int) + (u64::MAX as int) == (i as int + 1) * (
            u64::MAX as int)) by (nonlinear_arith);
            assert((i as int + 1) * (u64::MAX as int) <= (usize::MAX as int) * (u64::MAX as int))
                by (nonlinear_arith)
                requires
                    i as int + 1 <= usize::MAX as int,
            ;
            assert((usize::MAX as int) * (u64::MAX as int) < u128::MAX as int)
                by (nonlinear_arith);
        }
        t = t + (v as u128);
        i = i + 1;
    }
    proof {
        assert(m@.take(n as int) =~= m@);
    }
    t
}

/// `x` inserted into the vector where the order spec puts it.
fn insert_sorted(x: (String, u64), s: Vec<(String, u64)>) -> (r: Vec<(String, u64)>)
    ensures
        pairs_view(r@) == insert_desc((x.0@, x.1), pairs_view(s@)),
    decreases s@.len(),
{
    let ghost xv = (x.0@, x.1);
    let ghost s0 = pairs_view(s@);
    let mut s = s;
    if s.len() == 0 {
        s.push(x);
        proof {
            assert(pairs_view(s@) =~= seq![xv]);
        }
        s
    } else if x.1 >= s[0].1 {
        s.insert(0, x);
        proof {
            assert(pairs_view(s@) =~= seq![xv] + s0);
        }
        s
    } else {
        let first = s.remove(0);
        proof {
            assert(pairs_view(s@) =~= s0.drop_first());
        }
        let mut r = insert_sorted(x, s);
        r.insert(0, first);
        proof {
            assert(pairs_view(r@) =~= seq![s0[0]] + insert_desc(xv, s0.drop_first()));
        }
        r
    }
}

/// The vector sorted by seconds descending, stably.
fn sort_pairs(s: Vec<(String, u64)>) -> (r: Vec<(String, u64)>)
    ensures
        pairs_view(r@) == sort_desc(pairs_view(s@)),
    decreases s@.len(),
{
    let ghost s0 = pairs_view(s@);
    let mut s = s;
    if s.len() == 0 {
        s
    } else {
        let first = s.remove(0);
        proof {
            assert(pairs_view(s@) =~= s0.drop_first());
            assert((first.0@, first.1) == s0[0]);
        }
        let rest = sort_pairs(s);
        insert_sorted(first, rest)
    }
}

/// The ranked rows for already sorted and capped pairs.
fn annotate(v: Vec<(String, u64)>, total: u128, seen: &AppMap) -> (r: Vec<AppUsage>)
    requires
        total >= 1,
        forall|i: int| 0 <= i < v@.len() ==> pairs_view(v@)[i].1 as int <= total as int,
    ensures
        r@.map_values(|u: AppUsage| u@) == pairs_view(v@).map_values(
            (|p: (Seq<char>, u64)| usage_of(p, total as int, seen@)),
        ),
{
    let ghost f = |p: (Seq<char>, u64)| usage_of(p, total as int, seen@);
    let n = v.len();
    let mut r: Vec<AppUsage> = Vec::new();
    let mut i: usize = 0;
    proof {
        assert(r@.map_values(|u: AppUsage| u@) =~= pairs_view(v@).take(0).map_values(f));
    }
    while i < n
        invariant
            i <= n,
            n == v@.len(),
            total >= 1,
            forall|k: int| 0 <= k < v@.len() ==> pairs_view(v@)[k].1 as int <= total as int,
            f == (|p: (Seq<char>, u64)| usage_of(p, total as int, seen@)),
            r@.map_values(|u: AppUsage| u@) == pairs_view(v@).take(i as int).map_values(f),
        decreases n - i,
    {
        let p = &v[i];
        let name = p.0.clone();
        let secs = p.1;
        proof {
            assert(pairs_view(v@)[i as int] == (name@, secs));
            lemma_tenths_at_most_thousand(secs, total as int);
        }
        let tenths = ((secs as u128) * 1000 / total) as u64;
        let seen_at = match seen.get(&name) {
            Some(t) => t,
            None => 0,
        };
        let row = AppUsage { name, seconds: secs, percent_tenths: tenths, last_seen: seen_at };
        let ghost prev = r@;
        let ghost rowfull = row;
        proof {
            assert(row@ == f(pairs_view(v@)[i as int]));
            assert(prev.map_values(|u: AppUsage| u@) == pairs_view(v@).take(i as int).map_values(
                f,
            ));
            assert(prev.map_values(|u: AppUsage| u@).len() == i as int);
            assert(prev.len() == i as int);
        }
        r.push(row);
        proof {
            assert(r@ == prev.push(rowfull));
            lemma_map_values_push(prev, rowfull, |u: AppUsage| u@);
            assert(pairs_view(v@).take(i as int + 1) =~= pairs_view(v@).take(i as int).push(
                pairs_view(v@)[i as int],
            ));
            lemma_map_values_push(pairs_view(v@).take(i as int), pairs_view(v@)[i as int], f);
            assert(r@.map_values(|u: AppUsage| u@) == pairs_view(v@).take(i as int + 1)
                .map_values(f));
        }
        i = i + 1;
    }
    proof {
        assert(pairs_view(v@).take(n as int) =~= pairs_view(v@));
    }
    r
}

/// Sort a counter map's pairs, keep the top entries, and annotate them
/// against `total` (already floored at one).
fn rank_map(m: &AppMap, total: u128, seen: &AppMap) -> (r: Vec<AppUsage>)
    requires
        total >= 1,
        sum_secs(m@) <= total as int,
    ensures
        r@.map_values(|u: AppUsage| u@) == ranked(m@, total as int, seen@),
{
    let entries = entries_vec(m);
    let mut sorted = sort_pairs(entries);
    if sorted.len() > RANK_LIMIT {
        sorted.truncate(RANK_LIMIT);
    }
    proof {
        assert(pairs_view(sorted@) =~= capped(sort_desc(m@)));
        lemma_sorted_values_le_sum(m@);
        lemma_sort_desc_len(m@);
        assert forall|k: int| 0 <= k < pairs_view(sorted@).len() implies pairs_view(
            sorted@,
        )[k].1 as int <= total as int by {
            assert(pairs_view(sorted@)[k] == sort_desc(m@)[k]);
        }
    }
    let r = annotate(sorted, total, seen);
    proof {
        assert(r@.map_values(|u: AppUsage| u@) =~= ranked(m@, total as int, seen@));
    }
    r
}

impl ActivityTracker {
    /// A read-only, ranked snapshot of the ledger as of Unix time
    /// `now`.  Taking it never changes any accounting state.
    pub fn summarize(&self, now: u64) -> (r: ActivityStats)
        requires
            self.wf(),
        ensures
            r@ == summary_of(self@, now),
    {
        let session_duration = if now >= self.data.session_start {
            now - self.data.session_start
        } else {
            0
        };

        let total_today_safe: u128 = if self.data.total_today >= 1 {
            self.data.total_today as u128
        } else {
            1
        };
        let today = rank_map(&self.data.today, total_today_safe, &self.data.last_seen);

        let alltime_total = sum_total(&self.data.all_time);
        let alltime_safe: u128 = if alltime_total >= 1 {
            alltime_total
        } else {
            1
        };
        proof {
            lemma_sum_nonneg(self.data.all_time@);
        }
        let all_time = rank_map(&self.data.all_time, alltime_safe, &self.data.last_seen);

        let current_app = match &self.last_app {
            Some(s) => Some(s.clone()),
            None => None,
        };

        let r = ActivityStats {
            today,
            all_time,
            session_duration,
            total_today: self.data.total_today,
            current_app,
        };
        proof {
            assert(r@ =~= summary_of(self@, now));
        }
        r
    }
}

} // verus!
