use glare_worker::dedup::DedupGuard;
use glare_worker::plans::{RusticBackupRequest, SyncedBackupPlan};
use glare_worker::supervisor::supervisor_tick;
use glare_worker::timepoint::{next_minute, weekday, MinuteStamp};

fn at(year: u32, month: u32, day: u32, hour: u32, minute: u32) -> MinuteStamp {
    MinuteStamp { year, month, day, hour, minute }
}

fn plan(id: &str, cron: &str) -> SyncedBackupPlan {
    SyncedBackupPlan {
        id: id.to_string(),
        cron: cron.to_string(),
        request: RusticBackupRequest {
            repository: "/tmp/repo".to_string(),
            password: None,
            backend: None,
            options: Vec::new(),
            paths: vec!["/data".to_string()],
            tags: None,
            dry_run: None,
        },
    }
}

#[test]
fn dispatch_happens_once_per_minute() {
    let mut guard = DedupGuard::new();
    let id = "p1".to_string();
    let minute = at(2024, 1, 1, 10, 0);
    assert!(guard.should_dispatch(&id, &minute));
    assert!(!guard.should_dispatch(&id, &minute));
    assert!(!guard.should_dispatch(&id, &minute));
    // The following minute is eligible again.
    let later = at(2024, 1, 1, 10, 1);
    assert!(guard.should_dispatch(&id, &later));
    assert!(!guard.should_dispatch(&id, &later));
}

#[test]
fn different_plans_do_not_block_each_other() {
    let mut guard = DedupGuard::new();
    let minute = at(2024, 1, 1, 10, 0);
    assert!(guard.should_dispatch(&"a".to_string(), &minute));
    assert!(guard.should_dispatch(&"b".to_string(), &minute));
    assert!(!guard.should_dispatch(&"a".to_string(), &minute));
}

#[test]
fn supervisor_dispatches_once_per_minute_across_ticks() {
    let plans = vec![plan("p1", "* * * * *")];
    let mut guard = DedupGuard::new();
    let minute = at(2024, 3, 10, 9, 15);
    // Up to four scheduler ticks can fall inside one calendar minute.
    let first = supervisor_tick(&plans, &minute, &mut guard);
    assert_eq!(first, vec![0]);
    for _ in 0..3 {
        let again = supervisor_tick(&plans, &minute, &mut guard);
        assert!(again.is_empty());
    }
    // A second distinct minute allows exactly one more dispatch.
    let next = at(2024, 3, 10, 9, 16);
    let second = supervisor_tick(&plans, &next, &mut guard);
    assert_eq!(second, vec![0]);
    let again = supervisor_tick(&plans, &next, &mut guard);
    assert!(again.is_empty());
}

#[test]
fn supervisor_skips_invalid_cron_and_unmatched_plans() {
    let plans = vec![
        plan("bad", "not a cron"),
        plan("hourly", "0 * * * *"),
        plan("always", "* * * * *"),
    ];
    let mut guard = DedupGuard::new();
    let minute = at(2024, 3, 10, 9, 15);
    let picked = supervisor_tick(&plans, &minute, &mut guard);
    assert_eq!(picked, vec![2]);
}

#[test]
fn weekday_of_known_dates() {
    // 2024-01-01 was a Monday, 2024-01-07 a Sunday.
    assert_eq!(weekday(&at(2024, 1, 1, 0, 0)), 1);
    assert_eq!(weekday(&at(2024, 1, 7, 0, 0)), 0);
    assert_eq!(weekday(&at(2024, 2, 29, 0, 0)), 4);
    assert_eq!(weekday(&at(2000, 1, 1, 0, 0)), 6);
}

#[test]
fn next_minute_rolls_over_boundaries() {
    assert_eq!(next_minute(at(2024, 1, 1, 10, 58)), at(2024, 1, 1, 10, 59));
    assert_eq!(next_minute(at(2024, 1, 1, 10, 59)), at(2024, 1, 1, 11, 0));
    assert_eq!(next_minute(at(2024, 1, 1, 23, 59)), at(2024, 1, 2, 0, 0));
    // 2024 is a leap year, 2023 is not.
    assert_eq!(next_minute(at(2024, 2, 28, 23, 59)), at(2024, 2, 29, 0, 0));
    assert_eq!(next_minute(at(2023, 2, 28, 23, 59)), at(2023, 3, 1, 0, 0));
    assert_eq!(next_minute(at(2024, 12, 31, 23, 59)), at(2025, 1, 1, 0, 0));
}

#[test]
fn clock_gives_a_valid_minute() {
    let stamp = glare_worker::clock::current_minute().expect("the clock reads a valid date");
    assert!((1..=12).contains(&stamp.month));
    assert!((1..=31).contains(&stamp.day));
    assert!(stamp.hour < 24);
    assert!(stamp.minute < 60);
    let _ms = glare_worker::clock::timestamp_ms();
}
