use elephant_archive::configure;
use elephant_archive::zfs::filesystem::{SnapshotCollector, DAY_SECONDS, WEEK_SECONDS};
use elephant_archive::zfs::snapshot::Snapshot;

/// 2022-01-01 00:00:00 on the linear timestamp scale.
const NOW: i64 = 1640995200;

fn snap(volume: &str, t: i64) -> Snapshot {
    Snapshot::new(&Snapshot::generate_name_at(volume, t))
}

fn snaps(times: &[i64]) -> Vec<Snapshot> {
    times.iter().map(|&t| snap("tank/data", t)).collect()
}

fn names(list: &[Snapshot]) -> Vec<String> {
    list.iter().map(|s| s.name()).collect()
}

fn collector(times: &[i64]) -> SnapshotCollector {
    SnapshotCollector { filesystem: String::from("tank/data"), snapshots: snaps(times) }
}

#[test]
fn sweep_keeps_one_snapshot_per_interval() {
    // the middle-band scenario: T, T + 2h, T + 26h with a one-day interval
    let t = NOW + 2 * DAY_SECONDS;
    let c = collector(&[]);
    let band = snaps(&[t, t + 2 * 3600, t + 26 * 3600]);
    let destroys = c.find_frequent_snapshot(&band, DAY_SECONDS);
    assert_eq!(names(&destroys), names(&band[1..2]));
    let kept = c.find_surviving_snapshot(&band, DAY_SECONDS);
    assert_eq!(names(&kept), vec![band[0].name(), band[2].name()]);
}

#[test]
fn sweep_always_keeps_the_first_snapshot() {
    let c = collector(&[]);
    let band = snaps(&[NOW]);
    assert!(c.find_frequent_snapshot(&band, WEEK_SECONDS).is_empty());
    assert_eq!(names(&c.find_surviving_snapshot(&band, WEEK_SECONDS)), names(&band));
}

#[test]
fn sweep_boundary_favors_retention() {
    // a snapshot exactly one interval after the anchor is kept
    let c = collector(&[]);
    let band = snaps(&[NOW, NOW + DAY_SECONDS]);
    assert!(c.find_frequent_snapshot(&band, DAY_SECONDS).is_empty());
    let band = snaps(&[NOW, NOW + DAY_SECONDS - 1]);
    assert_eq!(names(&c.find_frequent_snapshot(&band, DAY_SECONDS)), names(&band[1..2]));
}

#[test]
fn count_cap_rejects_the_earliest_excess() {
    // the old-band scenario: 110 weekly snapshots against a cap of 104
    let times: Vec<i64> = (0..110).map(|i| NOW + i * WEEK_SECONDS).collect();
    let c = collector(&[]);
    let band = snaps(&times);
    let destroys = c.find_oldest_snapshot(&band, configure::SNAPSHOT_KEEP_WEEKS);
    assert_eq!(names(&destroys), names(&band[..6]));
}

#[test]
fn count_cap_rejects_nothing_within_the_limit() {
    let c = collector(&[]);
    let band = snaps(&[NOW, NOW + WEEK_SECONDS]);
    assert!(c.find_oldest_snapshot(&band, 104).is_empty());
    assert!(c.find_oldest_snapshot(&band, 2).is_empty());
    assert_eq!(names(&c.find_oldest_snapshot(&band, 1)), names(&band[..1]));
    assert!(c.find_oldest_snapshot(&snaps(&[]), 0).is_empty());
}

#[test]
fn generation_partitions_by_age() {
    let young = NOW - 1000;
    let middle = NOW + DAY_SECONDS + 3600;
    let old = NOW + 30 * DAY_SECONDS + 3600;
    let list = snaps(&[young, middle, old]);
    let generation = Snapshot::generation(&list, NOW);
    assert_eq!(names(&generation.young), names(&list[..1]));
    assert_eq!(names(&generation.middle), names(&list[1..2]));
    assert_eq!(names(&generation.old), names(&list[2..]));
    assert_eq!(
        generation.young.len() + generation.middle.len() + generation.old.len(),
        list.len()
    );
}

#[test]
fn generation_boundaries_are_inclusive_on_the_older_side() {
    let at_hours_limit = NOW + 24 * 3600;
    let at_days_limit = NOW + 30 * DAY_SECONDS;
    let list = snaps(&[at_hours_limit, at_days_limit]);
    let generation = Snapshot::generation(&list, NOW);
    assert!(generation.young.is_empty());
    assert_eq!(names(&generation.middle), names(&list[..1]));
    assert_eq!(names(&generation.old), names(&list[1..]));
}

#[test]
fn past_snapshots_all_count_as_young() {
    // creation times never exceed the current instant, so with limits set
    // ahead of `now` a purge of ordinary history destroys nothing
    let times: Vec<i64> = (0..40).map(|i| NOW - 40 * DAY_SECONDS + i * DAY_SECONDS).collect();
    let c = collector(&times);
    let destroys = c.purge(NOW);
    assert!(destroys.is_empty());
}

#[test]
fn purge_collects_rejects_of_every_band() {
    let m1 = NOW + DAY_SECONDS;
    let m2 = m1 + 3600;
    let m3 = m1 + DAY_SECONDS;
    let o1 = NOW + 30 * DAY_SECONDS;
    let o1b = o1 + 100;
    let o2 = o1 + WEEK_SECONDS;
    let c = collector(&[NOW - 1000, m1, m2, m3, o1, o1b, o2]);
    let destroys = c.purge(NOW);
    assert_eq!(names(&destroys), names(&snaps(&[m2, o1b])));
}

#[test]
fn purge_caps_the_surviving_old_band() {
    let times: Vec<i64> = (0..110).map(|i| NOW + 30 * DAY_SECONDS + i * WEEK_SECONDS).collect();
    let c = collector(&times);
    let destroys = c.purge(NOW);
    assert_eq!(names(&destroys), names(&snaps(&times[..6])));
}

#[test]
fn purge_twice_destroys_nothing_more() {
    let m1 = NOW + DAY_SECONDS;
    let times: Vec<i64> = vec![
        NOW - 1000,
        m1,
        m1 + 3600,
        m1 + DAY_SECONDS,
        NOW + 30 * DAY_SECONDS,
        NOW + 30 * DAY_SECONDS + 100,
        NOW + 30 * DAY_SECONDS + WEEK_SECONDS,
    ];
    let c = collector(&times);
    let destroys = c.purge(NOW);
    assert!(!destroys.is_empty());
    let destroyed: Vec<String> = names(&destroys);
    let survivors: Vec<Snapshot> = c
        .snapshots()
        .into_iter()
        .filter(|s| !destroyed.contains(&s.name()))
        .collect();
    let second = SnapshotCollector {
        filesystem: String::from("tank/data"),
        snapshots: survivors,
    };
    assert!(second.purge(NOW).is_empty());
}

#[test]
fn purge_leaves_the_collector_unchanged() {
    let times: Vec<i64> = vec![NOW + DAY_SECONDS, NOW + DAY_SECONDS + 10];
    let c = collector(&times);
    let before = names(&c.snapshots());
    let _ = c.purge(NOW);
    assert_eq!(names(&c.snapshots()), before);
}
