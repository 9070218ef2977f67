use rack::errors::Error;
use rack::inventory::parse_listing;
use rack::inventory::SnapBuilder;
use rack::zfs::Zfs;

fn lines(raw: &[&str]) -> Vec<String> {
    raw.iter().map(|s| s.to_string()).collect()
}

#[test]
fn listing_preserves_line_order() {
    let input = lines(&[
        "tank\t/tank",
        "tank@caz0000-20200101000000\t-",
        "tank@caz0001-20200102000000\t-",
        "tank/home\t/home",
        "tank/home@caz0000-20200101000000\t-",
        "other\t/other",
    ]);
    let fss = parse_listing(&input).unwrap();
    assert_eq!(fss.len(), 3);
    assert_eq!(fss[0].name, "tank");
    assert_eq!(fss[0].mount, "/tank");
    assert_eq!(
        fss[0].snaps,
        vec![
            "caz0000-20200101000000".to_string(),
            "caz0001-20200102000000".to_string()
        ]
    );
    assert_eq!(fss[1].name, "tank/home");
    assert_eq!(fss[1].snaps, vec!["caz0000-20200101000000".to_string()]);
    assert_eq!(fss[2].name, "other");
    assert!(fss[2].snaps.is_empty());
}

#[test]
fn listing_mount_may_hold_tabs() {
    // Only the first tab separates; the rest belongs to the mountpoint.
    let input = lines(&["tank\t/with\ttab"]);
    let fss = parse_listing(&input).unwrap();
    assert_eq!(fss[0].mount, "/with\ttab");
}

#[test]
fn listing_line_without_tab_is_fatal() {
    let input = lines(&["tank /tank"]);
    match parse_listing(&input) {
        Err(Error::MalformedListingLine { line }) => assert_eq!(line, "tank /tank"),
        other => panic!("expected malformed line error, got {:?}", other),
    }
}

#[test]
fn snapshot_before_any_volume_is_fatal() {
    let input = lines(&["tank@caz0000-20200101000000\t-"]);
    match parse_listing(&input) {
        Err(Error::SnapshotBeforeVolume { snapshot }) => {
            assert_eq!(snapshot, "caz0000-20200101000000")
        }
        other => panic!("expected orphan snapshot error, got {:?}", other),
    }
}

#[test]
fn snapshot_for_wrong_volume_is_fatal() {
    let input = lines(&["tank\t/tank", "zeug@caz0000-20200101000000\t-"]);
    match parse_listing(&input) {
        Err(Error::SnapshotVolumeMismatch { volume, snapshot }) => {
            assert_eq!(volume, "zeug");
            assert_eq!(snapshot, "caz0000-20200101000000");
        }
        other => panic!("expected mismatch error, got {:?}", other),
    }
}

#[test]
fn builder_attributes_snapshots_to_last_volume() {
    let mut b = SnapBuilder::new();
    b.push_volume("tank", "/tank");
    b.push_volume("tank/home", "/home");
    assert!(b.push_snap("tank/home", "snap1").is_ok());
    // The earlier volume is no longer current.
    assert!(matches!(
        b.push_snap("tank", "snap2"),
        Err(Error::SnapshotVolumeMismatch { .. })
    ));
    let fss = b.into_sets();
    assert_eq!(fss.len(), 2);
    assert!(fss[0].snaps.is_empty());
    assert_eq!(fss[1].snaps, vec!["snap1".to_string()]);
}

#[test]
fn zfs_new_keeps_prefix_and_inventory() {
    let input = lines(&["tank\t/tank", "tank@caz0000-20200101000000\t-"]);
    let zfs = Zfs::new("caz", &input).unwrap();
    assert_eq!(zfs.prefix, "caz");
    assert_eq!(zfs.filesystems.len(), 1);
    assert_eq!(zfs.filesystems[0].snaps.len(), 1);
}
