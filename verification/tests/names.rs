use rack::backup::fix_time;
use rack::backup::sure_name_matches;
use rack::names::parse_fsname;
use rack::names::render_snap_name;
use rack::names::snap_number_of;
use rack::names::now_timestamp;
use rack::names::FsName;
use rack::names::Timestamp;

#[test]
fn test_parse_fsname() {
    assert_eq!(
        parse_fsname("simple/name"),
        FsName::Local {
            name: "simple/name".to_string()
        }
    );
    assert_eq!(
        parse_fsname("host:simple/name"),
        FsName::Remote {
            host: "host".to_string(),
            name: "simple/name".to_string(),
        }
    );
    assert_eq!(
        parse_fsname("host:simple/name:with-colon"),
        FsName::Remote {
            host: "host".to_string(),
            name: "simple/name:with-colon".to_string(),
        }
    );
}

fn ts(year: u32, month: u32, day: u32, hour: u32, minute: u32, second: u32) -> Timestamp {
    Timestamp {
        year,
        month,
        day,
        hour,
        minute,
        second,
    }
}

#[test]
fn render_is_prefix_index_dash_time() {
    let t = ts(2020, 1, 2, 3, 4, 5);
    assert_eq!(render_snap_name("caz", 7, t), "caz0007-20200102030405");
    assert_eq!(render_snap_name("", 0, t), "0000-20200102030405");
}

#[test]
fn render_widens_past_four_digits() {
    let t = ts(2020, 1, 2, 3, 4, 5);
    assert_eq!(render_snap_name("caz", 12345, t), "caz12345-20200102030405");
    // A five-digit index no longer matches the convention.
    assert_eq!(snap_number_of("caz", "caz12345-20200102030405"), None);
}

#[test]
fn snap_number_round_trip() {
    let t = ts(2020, 12, 31, 23, 59, 58);
    let name = render_snap_name("caz", 42, t);
    assert_eq!(snap_number_of("caz", &name), Some(42));
}

#[test]
fn snap_number_rejects_off_convention_names() {
    assert_eq!(snap_number_of("caz", "caz0001-20200101"), Some(1));
    // Wrong prefix.
    assert_eq!(snap_number_of("caz", "daily0001-20200101"), None);
    // Too few index digits.
    assert_eq!(snap_number_of("caz", "caz001-20200101"), None);
    // Non-digit in the index.
    assert_eq!(snap_number_of("caz", "cazx001-20200101"), None);
    // Missing dash.
    assert_eq!(snap_number_of("caz", "caz000120200101"), None);
    // Empty timestamp part.
    assert_eq!(snap_number_of("caz", "caz0001-"), None);
    // Letter in the timestamp part.
    assert_eq!(snap_number_of("caz", "caz0001-2020x101"), None);
}

#[test]
fn clock_reading_is_in_range() {
    let t = now_timestamp();
    assert!(t.year <= 9999);
    assert!((1..=12).contains(&t.month));
    assert!((1..=31).contains(&t.day));
    assert!(t.hour <= 23);
    assert!(t.minute <= 59);
    assert!(t.second <= 59);
}

#[test]
fn fix_time_reads_trailing_minutes() {
    assert_eq!(fix_time("snap-201812261118"), "2018-12-26 11:18:00");
    assert_eq!(fix_time("c1-202001020304"), "2020-01-02 03:04:00");
    assert_eq!(fix_time("no-digits-here"), "now");
    assert_eq!(fix_time("short"), "now");
}

#[test]
fn sure_pattern_needs_prefix_dash_digits() {
    assert!(sure_name_matches("caz", "caz-202001020304"));
    assert!(sure_name_matches("caz", "caz-2020-01-02"));
    assert!(!sure_name_matches("caz", "caz202001020304"));
    assert!(!sure_name_matches("caz", "other-2020"));
    assert!(!sure_name_matches("caz", "caz-"));
    assert!(!sure_name_matches("caz", "caz-2020x"));
}
