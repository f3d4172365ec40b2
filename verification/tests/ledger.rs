use activity_ledger::app_map::AppMap;
use activity_ledger::ledger::ActivityData;
use activity_ledger::ledger::ActivityTracker;

const DAY: u64 = 86400;

fn s(name: &str) -> String {
    name.to_string()
}

/// Sum of every counter in a map, read through the public API.
fn map_sum(m: &AppMap) -> u64 {
    let mut total: u64 = 0;
    let mut i = 0;
    while i < m.len() {
        total += m.pair(i).1;
        i += 1;
    }
    total
}

#[test]
fn first_sample_bootstraps_day_and_session() {
    let now = 100 * DAY + 30;
    let mut t = ActivityTracker::new(None, now);
    let r = t.sample(now, Some(s("Editor")));
    assert_eq!(r, Some(s("Editor")));
    assert_eq!(t.data.today_date, Some(100));
    assert_eq!(t.data.session_start, now);
    assert_eq!(t.data.total_today, 0);
    assert_eq!(t.data.today.get(&s("Editor")), Some(0));
    assert_eq!(t.data.all_time.get(&s("Editor")), Some(0));
    assert_eq!(t.data.last_seen.get(&s("Editor")), Some(now));
    assert_eq!(t.last_app, Some(s("Editor")));
    assert_eq!(t.last_check, now);
}

#[test]
fn total_today_equals_sum_after_every_sample() {
    let t0 = 200 * DAY;
    let mut t = ActivityTracker::new(None, t0);
    let gaps = [0u64, 30, 60, 95, 10, 400, 89, 90, 91, 1];
    let apps = ["A", "B", "A", "C", "B", "A", "C", "C", "A", "B"];
    let mut now = t0;
    for (gap, app) in gaps.iter().zip(apps.iter()) {
        now += gap;
        t.sample(now, Some(s(app)));
        assert_eq!(t.data.total_today, map_sum(&t.data.today));
    }
}

#[test]
fn long_gap_credits_exactly_the_ceiling() {
    let t0 = 300 * DAY;
    let mut t = ActivityTracker::new(None, t0);
    t.sample(t0, Some(s("Editor")));
    t.sample(t0 + 200, Some(s("Editor")));
    assert_eq!(t.data.today.get(&s("Editor")), Some(90));
    assert_eq!(t.data.total_today, 90);
}

#[test]
fn clamp_boundary_values() {
    let t0 = 300 * DAY;

    let mut t = ActivityTracker::new(None, t0);
    t.sample(t0, Some(s("A")));
    t.sample(t0 + 89, Some(s("A")));
    assert_eq!(t.data.total_today, 89);

    let mut t = ActivityTracker::new(None, t0);
    t.sample(t0, Some(s("A")));
    t.sample(t0 + 90, Some(s("A")));
    assert_eq!(t.data.total_today, 90);

    let mut t = ActivityTracker::new(None, t0);
    t.sample(t0, Some(s("A")));
    t.sample(t0 + 91, Some(s("A")));
    assert_eq!(t.data.total_today, 90);
}

#[test]
fn clock_going_backwards_credits_nothing() {
    let t0 = 300 * DAY + 1000;
    let mut t = ActivityTracker::new(None, t0);
    t.sample(t0, Some(s("A")));
    t.sample(t0 - 50, Some(s("A")));
    assert_eq!(t.data.total_today, 0);
    assert_eq!(t.last_check, t0 - 50);
}

#[test]
fn day_rollover_archives_and_clears() {
    let mut d = ActivityData::default();
    d.today.set_secs(&s("X"), 500);
    d.total_today = 500;
    d.today_date = Some(100);
    d.session_start = 100 * DAY;

    let now = 101 * DAY + 10;
    let mut t = ActivityTracker::new(Some(d), now);
    t.sample(now, None);

    let archived = t.data.history.get(100).expect("day 100 should be archived");
    assert_eq!(archived.len(), 1);
    assert_eq!(archived.get(&s("X")), Some(500));
    assert_eq!(t.data.today.len(), 0);
    assert_eq!(t.data.total_today, 0);
    assert_eq!(t.data.today_date, Some(101));
    assert_eq!(t.data.session_start, now);
}

#[test]
fn skipping_days_rolls_over_once() {
    let mut d = ActivityData::default();
    d.today.set_secs(&s("X"), 7);
    d.total_today = 7;
    d.today_date = Some(100);
    d.session_start = 100 * DAY;

    let now = 104 * DAY + 5;
    let mut t = ActivityTracker::new(Some(d), now);
    t.sample(now, None);

    assert!(t.data.history.get(100).is_some());
    assert!(t.data.history.get(101).is_none());
    assert!(t.data.history.get(102).is_none());
    assert!(t.data.history.get(103).is_none());
    assert_eq!(t.data.today_date, Some(104));
}

#[test]
fn rollover_credits_the_new_day() {
    let mut d = ActivityData::default();
    d.today.set_secs(&s("X"), 500);
    d.total_today = 500;
    d.all_time.set_secs(&s("X"), 500);
    d.today_date = Some(100);
    d.session_start = 100 * DAY;

    let start = 101 * DAY;
    let mut t = ActivityTracker::new(Some(d), start);
    t.sample(start + 60, Some(s("Y")));

    assert_eq!(t.data.today.get(&s("X")), None);
    assert_eq!(t.data.today.get(&s("Y")), Some(60));
    assert_eq!(t.data.total_today, 60);
    assert_eq!(t.data.all_time.get(&s("X")), Some(500));
    assert_eq!(t.data.all_time.get(&s("Y")), Some(60));
}

#[test]
fn no_probe_means_no_counter_changes() {
    let t0 = 400 * DAY;
    let mut t = ActivityTracker::new(None, t0);
    t.sample(t0, Some(s("A")));
    t.sample(t0 + 30, Some(s("A")));

    let today_before = t.data.today.get(&s("A"));
    let alltime_before = t.data.all_time.get(&s("A"));
    let seen_before = t.data.last_seen.get(&s("A"));
    let total_before = t.data.total_today;

    let r = t.sample(t0 + 75, None);
    assert_eq!(r, None);
    assert_eq!(t.data.today.get(&s("A")), today_before);
    assert_eq!(t.data.all_time.get(&s("A")), alltime_before);
    assert_eq!(t.data.last_seen.get(&s("A")), seen_before);
    assert_eq!(t.data.total_today, total_before);
    assert_eq!(t.last_check, t0 + 75);
    assert_eq!(t.last_app, Some(s("A")));
}

#[test]
fn session_start_bootstraps_when_unset() {
    let mut d = ActivityData::default();
    d.today_date = Some(500);
    d.session_start = 0;
    let now = 500 * DAY + 42;
    let mut t = ActivityTracker::new(Some(d), now);
    t.sample(now, None);
    assert_eq!(t.data.session_start, now);
}

#[test]
fn loaded_snapshot_is_kept() {
    let mut d = ActivityData::default();
    d.today.set_secs(&s("A"), 11);
    d.all_time.set_secs(&s("A"), 99);
    d.total_today = 11;
    d.today_date = Some(321);
    d.session_start = 55;

    let now = 777;
    let t = ActivityTracker::new(Some(d), now);
    assert_eq!(t.data.today.get(&s("A")), Some(11));
    assert_eq!(t.data.all_time.get(&s("A")), Some(99));
    assert_eq!(t.data.total_today, 11);
    assert_eq!(t.data.today_date, Some(321));
    assert_eq!(t.data.session_start, 55);
    assert_eq!(t.last_app, None);
    assert_eq!(t.last_check, now);
}

#[test]
fn reset_archives_under_current_day() {
    let mut d = ActivityData::default();
    d.today.set_secs(&s("A"), 200);
    d.total_today = 200;
    d.today_date = Some(5);
    d.all_time.set_secs(&s("A"), 900);
    d.session_start = 5 * DAY;

    let reset_time = 5 * DAY + 600;
    let mut t = ActivityTracker::new(Some(d), reset_time);
    t.reset_today(reset_time);

    let archived = t.data.history.get(5).expect("day 5 should be archived");
    assert_eq!(archived.get(&s("A")), Some(200));
    assert_eq!(t.data.today.len(), 0);
    assert_eq!(t.data.total_today, 0);
    assert_eq!(t.data.session_start, reset_time);
    assert_eq!(t.data.today_date, Some(5));
    assert_eq!(t.data.all_time.get(&s("A")), Some(900));
}

#[test]
fn second_reset_replaces_the_archived_day() {
    let t0 = 600 * DAY;
    let mut t = ActivityTracker::new(None, t0);
    t.sample(t0, Some(s("A")));
    t.sample(t0 + 40, Some(s("A")));
    t.reset_today(t0 + 50);
    let first = t.data.history.get(600).expect("archived once");
    assert_eq!(first.get(&s("A")), Some(40));

    t.sample(t0 + 60, Some(s("B")));
    t.reset_today(t0 + 70);
    let second = t.data.history.get(600).expect("archived again");
    // The cursor still points at the sample taken at `t0 + 40`, so the
    // sample at `t0 + 60` credits twenty seconds.
    assert_eq!(second.get(&s("A")), None);
    assert_eq!(second.get(&s("B")), Some(20));
}

#[test]
fn last_seen_tracks_most_recent_observation() {
    let t0 = 700 * DAY;
    let mut t = ActivityTracker::new(None, t0);
    t.sample(t0, Some(s("A")));
    t.sample(t0 + 30, Some(s("B")));
    t.sample(t0 + 60, Some(s("A")));
    assert_eq!(t.data.last_seen.get(&s("A")), Some(t0 + 60));
    assert_eq!(t.data.last_seen.get(&s("B")), Some(t0 + 30));
}

#[test]
fn sample_returns_the_probed_name() {
    let t0 = 800 * DAY;
    let mut t = ActivityTracker::new(None, t0);
    assert_eq!(t.sample(t0, Some(s("Terminal"))), Some(s("Terminal")));
    assert_eq!(t.sample(t0 + 10, None), None);
}
