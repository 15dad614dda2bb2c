use elephant_archive::calendar::{
    civil_from_timestamp, max_timestamp_seconds, seconds_from_civil, CivilTime,
};
use elephant_archive::zfs::snapshot::Snapshot;

fn civil(year: u32, month: u32, day: u32, hour: u32, minute: u32, second: u32) -> CivilTime {
    CivilTime { year, month, day, hour, minute, second }
}

#[test]
fn seconds_of_known_dates() {
    assert_eq!(seconds_from_civil(civil(1970, 1, 1, 0, 0, 0)), 0);
    assert_eq!(seconds_from_civil(civil(2022, 4, 27, 19, 30, 0)), 1651087800);
    assert_eq!(seconds_from_civil(civil(2000, 2, 29, 0, 0, 0)), 951782400);
    assert_eq!(seconds_from_civil(civil(9999, 12, 31, 23, 59, 59)), 253402300799);
}

#[test]
fn civil_of_known_timestamps() {
    let c = civil_from_timestamp(1651087800);
    assert_eq!(
        (c.year, c.month, c.day, c.hour, c.minute, c.second),
        (2022, 4, 27, 19, 30, 0)
    );
    let c = civil_from_timestamp(0);
    assert_eq!((c.year, c.month, c.day, c.hour, c.minute, c.second), (1970, 1, 1, 0, 0, 0));
    let c = civil_from_timestamp(951782400 + 86399);
    assert_eq!((c.year, c.month, c.day, c.hour, c.minute, c.second), (2000, 2, 29, 23, 59, 59));
}

#[test]
fn max_timestamp_is_start_of_year_ten_thousand() {
    assert_eq!(max_timestamp_seconds(), 253402300800);
}

#[test]
fn generated_name_is_deterministic() {
    let name = Snapshot::generate_name_at("tank/data", 1651087800);
    assert_eq!(name, "tank/data@elephant-2022-0427-193000");
    let name = Snapshot::generate_name_at("pool", 0);
    assert_eq!(name, "pool@elephant-1970-0101-000000");
}

#[test]
fn generated_name_round_trips() {
    for &t in &[0i64, 1, 59, 951782400, 1651087800, 253402300799] {
        let name = Snapshot::generate_name_at("tank/data", t);
        let snapshot = Snapshot::new(&name);
        assert_eq!(snapshot.try_get_datetime(), Some(t));
    }
}

#[test]
fn generate_name_uses_the_clock() {
    let name = Snapshot::generate_name("tank/data");
    assert!(name.starts_with("tank/data@elephant-"));
    assert!(Snapshot::new(&name).try_get_datetime().is_some());
}

#[test]
fn parse_reads_the_suffix_after_the_last_separator() {
    let s = Snapshot::new("a@b@elephant-2022-0427-193000");
    assert_eq!(s.try_get_datetime(), Some(1651087800));
    // without any separator the whole name must be the timestamp suffix
    let s = Snapshot::new("elephant-2022-0427-193000");
    assert_eq!(s.try_get_datetime(), Some(1651087800));
}

#[test]
fn parse_rejects_malformed_names() {
    for name in [
        "",
        "tank/data",
        "tank/data@",
        "tank/data@manual-2022-0427-193000",
        "tank/data@elephant-2022-0427-19300",
        "tank/data@elephant-2022-0427-1930000",
        "tank/data@elephant-2022-1327-193000",
        "tank/data@elephant-2022-0432-193000",
        "tank/data@elephant-2022-0229-193000",
        "tank/data@elephant-1969-0427-193000",
        "tank/data@elephant-2022-0427-243000",
        "tank/data@elephant-2022-0427-196000",
        "tank/data@elephant-2022-0427-193060",
        "tank/data@elephant-2o22-0427-193000",
        "tank/data@elephant+2022-0427-193000",
    ] {
        assert_eq!(Snapshot::new(name).try_get_datetime(), None, "accepted {:?}", name);
    }
}

#[test]
fn parse_accepts_leap_day_only_in_leap_years() {
    assert_eq!(
        Snapshot::new("v@elephant-2000-0229-000000").try_get_datetime(),
        Some(951782400)
    );
    assert_eq!(Snapshot::new("v@elephant-1900-0229-000000").try_get_datetime(), None);
    assert_eq!(Snapshot::new("v@elephant-2024-0229-120000").try_get_datetime().is_some(), true);
}

#[test]
fn parse_extremes_of_the_range() {
    assert_eq!(Snapshot::new("v@elephant-1970-0101-000000").try_get_datetime(), Some(0));
    assert_eq!(
        Snapshot::new("v@elephant-9999-1231-235959").try_get_datetime(),
        Some(253402300799)
    );
}

#[test]
fn snapshot_keeps_its_name() {
    let s = Snapshot::new("tank/data@elephant-2022-0427-193000");
    assert_eq!(s.name(), "tank/data@elephant-2022-0427-193000");
    let d = s.duplicate();
    assert_eq!(d.name(), s.name());
}
