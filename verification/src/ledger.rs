//! The activity ledger: sampling, day rollover, and reset.
//!
//! The ledger owns the accounting state and is its single source of
//! truth.  A caller reads the clock and the focus probe and hands both
//! to [`ActivityTracker::sample`]; the ledger converts the interval
//! since the previous sample into a clamped credit for the focused
//! application, rolls the day over when the epoch-day number changes,
//! and keeps the running today-total equal to the sum of today's
//! per-application counters.

use vstd::prelude::*;
use crate::app_map::AppMap;
use crate::app_map::{bump, has_key, keys_unique, put, sum_secs, value_of};
use crate::app_map::{lemma_sum_bump, lemma_value_of_le_sum};
use crate::day_archive::DayArchive;

verus! {

/// Seconds in one epoch day.
pub const SECS_PER_DAY: u64 = 86400;

/// Ceiling on the seconds a single sample may credit: one and a half
/// times the expected sampling period of about sixty seconds, so a
/// late or delayed sample adds a bounded error instead of a huge one.
pub const CLAMP_CEILING: u64 = 90;

/// The persisted accounting state.
pub struct ActivityData {
    /// Application name to seconds spent today.
    pub today: AppMap,
    /// Application name to seconds spent since tracking began.
    pub all_time: AppMap,
    /// Application name to the Unix time it was last observed.
    pub last_seen: AppMap,
    /// Unix time the current tracking session began; zero means unset.
    pub session_start: u64,
    /// Running total of seconds tracked today.
    pub total_today: u64,
    /// Epoch-day number of the current day; `None` before the first sample.
    pub today_date: Option<u64>,
    /// Completed days, keyed by epoch-day number.
    pub history: DayArchive,
}

/// Mathematical image of [`ActivityData`].
#[verifier::ext_equal]
pub ghost struct DataView {
    pub today: Seq<(Seq<char>, u64)>,
    pub all_time: Seq<(Seq<char>, u64)>,
    pub last_seen: Seq<(Seq<char>, u64)>,
    pub session_start: u64,
    pub total_today: u64,
    pub today_date: Option<u64>,
    pub history: Map<u64, Seq<(Seq<char>, u64)>>,
}

impl View for ActivityData {
    type V = DataView;

    open spec fn view(&self) -> DataView {
        DataView {
            today: self.today@,
            all_time: self.all_time@,
            last_seen: self.last_seen@,
            session_start: self.session_start,
            total_today: self.total_today,
            today_date: self.today_date,
            history: self.history@,
        }
    }
}

/// The accounting invariant: the running today-total equals the sum of
/// today's per-application counters.
pub open spec fn accounted(d: DataView) -> bool {
    d.total_today == sum_secs(d.today)
}

impl ActivityData {
    /// Well-formed state: unique keys in every map, a well-formed
    /// archive, and the accounting invariant.
    pub open spec fn wf(&self) -> bool {
        &&& keys_unique(self.today@)
        &&& keys_unique(self.all_time@)
        &&& keys_unique(self.last_seen@)
        &&& self.history.wf()
        &&& accounted(self@)
    }
}

/// The image of a freshly initialised state.
pub open spec fn empty_data() -> DataView {
    DataView {
        today: Seq::empty(),
        all_time: Seq::empty(),
        last_seen: Seq::empty(),
        session_start: 0,
        total_today: 0,
        today_date: None,
        history: Map::empty(),
    }
}

impl Default for ActivityData {
    /// An empty ledger state.
    fn default() -> (d: Self)
        ensures
            d@ == empty_data(),
            d.wf(),
    {
        let d = ActivityData {
            today: AppMap::new(),
            all_time: AppMap::new(),
            last_seen: AppMap::new(),
            session_start: 0,
            total_today: 0,
            today_date: None,
            history: DayArchive::new(),
        };
        proof {
            assert(d@ =~= empty_data());
        }
        d
    }
}

/// Epoch-day number of the Unix time `now`: a timezone-naive day
/// identifier, deliberately so.
pub open spec fn day_of(now: u64) -> u64 {
    (now / SECS_PER_DAY) as u64
}

/// Seconds from `last` to `now`, floored at zero.
pub open spec fn elapsed_since(last: u64, now: u64) -> u64 {
    if now >= last {
        (now - last) as u64
    } else {
        0
    }
}

/// The credit a sample at `now` earns after clamping.
pub open spec fn counted_of(last: u64, now: u64) -> u64 {
    if elapsed_since(last, now) < CLAMP_CEILING {
        elapsed_since(last, now)
    } else {
        CLAMP_CEILING
    }
}

/// The day-rollover step: when the epoch day moved on, archive the
/// finished day (unless none was ever begun), clear today's counters,
/// and start a fresh session.
pub open spec fn rolled(d: DataView, now: u64) -> DataView {
    if d.today_date == Some(day_of(now)) {
        d
    } else {
        DataView {
            today: Seq::empty(),
            total_today: 0,
            today_date: Some(day_of(now)),
            session_start: now,
            history: match d.today_date {
                Some(prev) => d.history.insert(prev, d.today),
                None => d.history,
            },
            ..d
        }
    }
}

/// The session-bootstrap step: an unset session start becomes `now`.
pub open spec fn booted(d: DataView, now: u64) -> DataView {
    if d.session_start == 0 {
        DataView { session_start: now, ..d }
    } else {
        d
    }
}

/// The state a sample sees once rollover and bootstrap are done,
/// before any credit is added.
pub open spec fn pre_credit(d: DataView, now: u64) -> DataView {
    booted(rolled(d, now), now)
}

/// The crediting step: `c` seconds go to `name` in today's and the
/// all-time counters and to the running total, and `name` was last
/// seen `now`.
pub open spec fn credited(d: DataView, name: Seq<char>, c: u64, now: u64) -> DataView {
    DataView {
        today: bump(d.today, name, c),
        all_time: bump(d.all_time, name, c),
        total_today: (d.total_today + c) as u64,
        last_seen: put(d.last_seen, name, now),
        ..d
    }
}

/// The explicit reset step: archive today under the current day, clear
/// today's counters, and restart the session; the day identifier and
/// the all-time counters stay.
pub open spec fn reset_data(d: DataView, now: u64) -> DataView {
    DataView {
        today: Seq::empty(),
        total_today: 0,
        session_start: now,
        history: match d.today_date {
            Some(cur) => d.history.insert(cur, d.today),
            None => d.history,
        },
        ..d
    }
}

/// The view of an optional application name.
pub open spec fn opt_name(o: Option<String>) -> Option<Seq<char>> {
    match o {
        Some(s) => Some(s@),
        None => None,
    }
}

/// The ledger plus its sampling cursor.
pub struct ActivityTracker {
    /// The accounting state.
    pub data: ActivityData,
    /// The most recently observed focused application.
    pub last_app: Option<String>,
    /// Unix time of the previous sample.
    pub last_check: u64,
}

/// Mathematical image of [`ActivityTracker`].
#[verifier::ext_equal]
pub ghost struct TrackerView {
    pub data: DataView,
    pub last_app: Option<Seq<char>>,
    pub last_check: u64,
}

impl View for ActivityTracker {
    type V = TrackerView;

    open spec fn view(&self) -> TrackerView {
        TrackerView {
            data: self.data@,
            last_app: opt_name(self.last_app),
            last_check: self.last_check,
        }
    }
}

/// What one whole sample does to the tracker: rollover and bootstrap,
/// then a clamped credit to the probed application if one was seen,
/// and the cursor always advances to `now`.
pub open spec fn sampled(t: TrackerView, now: u64, probe: Option<Seq<char>>) -> TrackerView {
    let d = pre_credit(t.data, now);
    let c = counted_of(t.last_check, now);
    match probe {
        None => TrackerView { data: d, last_app: t.last_app, last_check: now },
        Some(n) => TrackerView {
            data: credited(d, n, c, now),
            last_app: Some(n),
            last_check: now,
        },
    }
}

impl ActivityTracker {
    /// Well-formed tracker: well-formed accounting state.
    pub open spec fn wf(&self) -> bool {
        self.data.wf()
    }

    /// Start tracking at Unix time `now` from a loaded snapshot, or
    /// from an empty state when none could be loaded.
    pub fn new(data: Option<ActivityData>, now: u64) -> (t: Self)
        requires
            data matches Some(d) ==> d.wf(),
        ensures
            t@.data == match data {
                Some(d) => d@,
                None => empty_data(),
            },
            t@.last_app == None::<Seq<char>>,
            t@.last_check == now,
            t.wf(),
    {
        let d = match data {
            Some(d) => d,
            None => ActivityData::default(),
        };
        ActivityTracker { data: d, last_app: None, last_check: now }
    }

    /// Record one sample taken at Unix time `now`, whose focus probe
    /// observed `probe`.  Returns the probed name unchanged.
    pub fn sample(&mut self, now: u64, probe: Option<String>) -> (r: Option<String>)
        requires
            old(self).wf(),
            old(self).data.total_today + CLAMP_CEILING <= u64::MAX,
            probe matches Some(n) ==> (has_key(old(self).data.all_time@, n@)
                ==> value_of(old(self).data.all_time@, n@) + CLAMP_CEILING <= u64::MAX),
        ensures
            final(self)@ == sampled(old(self)@, now, opt_name(probe)),
            final(self).wf(),
            r == probe,
    {
        let ghost t0 = self@;

        // Day rollover.
        let today_id = now / SECS_PER_DAY;
        let needs_roll = match self.data.today_date {
            Some(d) => d != today_id,
            None => true,
        };
        if needs_roll {
            if let Some(prev) = self.data.today_date {
                let mut archived = AppMap::new();
                core::mem::swap(&mut archived, &mut self.data.today);
                self.data.history.insert(prev, archived);
            } else {
                self.data.today.clear();
            }
            self.data.total_today = 0;
            self.data.today_date = Some(today_id);
            self.data.session_start = now;
        }

        // Session bootstrap.
        if self.data.session_start == 0 {
            self.data.session_start = now;
        }
        proof {
            assert(self.data@ =~= pre_credit(t0.data, now));
        }

        // Elapsed time, floored at zero; the cursor advances whether or
        // not the probe saw anything.
        let elapsed = if now >= self.last_check { now - self.last_check } else { 0 };
        self.last_check = now;

        // Clamp the credit.
        let counted = if elapsed < CLAMP_CEILING { elapsed } else { CLAMP_CEILING };
        proof {
            assert(counted == counted_of(t0.last_check, now));
        }

        // Credit the focused application, if one was observed.
        match &probe {
            Some(name) => {
                proof {
                    if has_key(self.data.today@, name@) {
                        lemma_value_of_le_sum(self.data.today@, name@);
                    }
                    lemma_sum_bump(self.data.today@, name@, counted);
                }
                let ghost d1 = self.data@;
                self.data.today.add_secs(name, counted);
                self.data.all_time.add_secs(name, counted);
                self.data.total_today = self.data.total_today + counted;
                self.data.last_seen.set_secs(name, now);
                self.last_app = Some(name.clone());
                proof {
                    assert(self.data@ =~= credited(d1, name@, counted, now));
                    assert(self@ =~= sampled(t0, now, opt_name(probe)));
                }
            },
            None => {
                proof {
                    assert(self@ =~= sampled(t0, now, opt_name(probe)));
                }
            },
        }
        probe
    }

    /// Archive today's counters under the current day, clear them, and
    /// restart the session at Unix time `now`.  The day identifier,
    /// the all-time counters, and the sampling cursor stay.
    pub fn reset_today(&mut self, now: u64)
        requires
            old(self).wf(),
        ensures
            final(self)@ == (TrackerView { data: reset_data(old(self)@.data, now), ..old(self)@ }),
            final(self).wf(),
    {
        let ghost t0 = self@;
        if let Some(cur) = self.data.today_date {
            let mut archived = AppMap::new();
            core::mem::swap(&mut archived, &mut self.data.today);
            self.data.history.insert(cur, archived);
        } else {
            self.data.today.clear();
        }
        self.data.total_today = 0;
        self.data.session_start = now;
        proof {
            assert(self@ =~= TrackerView { data: reset_data(t0.data, now), ..t0 });
        }
    }
}

/// Accounting invariant, as a statement about the sampling step alone:
/// whatever the probe returned, a sample taken on an accounted state
/// leaves an accounted state.
pub proof fn lemma_sampling_keeps_accounting(t: TrackerView, now: u64, probe: Option<Seq<char>>)
    requires
        accounted(t.data),
        t.data.total_today + CLAMP_CEILING <= u64::MAX,
    ensures
        accounted(sampled(t, now, probe).data),
{
    let d = pre_credit(t.data, now);
    let c = counted_of(t.last_check, now);
    match probe {
        None => {},
        Some(n) => {
            if has_key(d.today, n) {
                lemma_value_of_le_sum(d.today, n);
            }
            lemma_sum_bump(d.today, n, c);
        },
    }
}

/// Clamping law: when more than the ceiling elapsed between two
/// samples, the credit is exactly the ceiling, not the true elapsed
/// time.
pub proof fn lemma_clamped_credit(t: TrackerView, now: u64, name: Seq<char>)
    requires
        elapsed_since(t.last_check, now) > CLAMP_CEILING,
    ensures
        counted_of(t.last_check, now) == CLAMP_CEILING,
        sampled(t, now, Some(name)).data.total_today
            == (pre_credit(t.data, now).total_today + CLAMP_CEILING) as u64,
{
}

/// No probe, no mutation: on a steady state (day unchanged, session
/// begun), a sample whose probe saw nothing only advances the cursor.
pub proof fn lemma_no_probe_no_mutation(t: TrackerView, now: u64)
    requires
        t.data.today_date == Some(day_of(now)),
        t.data.session_start != 0,
    ensures
        sampled(t, now, None) == (TrackerView { last_check: now, ..t }),
{
}

} // verus!
