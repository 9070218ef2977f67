use rack::errors::Error;
use rack::names::snap_number_of;
use rack::retention::prune;
use rack::zfs::snapshot;
use rack::zfs::Zfs;

fn lines(raw: &[&str]) -> Vec<String> {
    raw.iter().map(|s| s.to_string()).collect()
}

#[test]
fn next_index_of_empty_set_is_zero() {
    let input = lines(&["tank\t/tank", "tank@other-20200101000000\t-"]);
    let zfs = Zfs::new("caz", &input).unwrap();
    // The only snapshot belongs to another convention.
    assert_eq!(zfs.next_under("tank"), 0);
}

#[test]
fn next_index_is_max_plus_one() {
    let input = lines(&[
        "tank\t/tank",
        "tank@caz0000-20200101000000\t-",
        "tank@caz0001-20200102000000\t-",
        "tank@caz0002-20200103000000\t-",
    ]);
    let zfs = Zfs::new("caz", &input).unwrap();
    assert_eq!(zfs.next_under("tank"), 3);
}

#[test]
fn next_index_is_not_a_count() {
    // Only index 5 exists: the next index is 6, not 1.
    let input = lines(&["tank\t/tank", "tank@caz0005-20200101000000\t-"]);
    let zfs = Zfs::new("caz", &input).unwrap();
    assert_eq!(zfs.next_under("tank"), 6);
}

#[test]
fn next_index_spans_the_subtree() {
    let input = lines(&[
        "tank\t/tank",
        "tank@caz0001-20200101000000\t-",
        "tank/home\t/home",
        "tank/home@caz0004-20200102000000\t-",
        "tankother\t/elsewhere",
        "tankother@caz0009-20200103000000\t-",
    ]);
    let zfs = Zfs::new("caz", &input).unwrap();
    // `tankother` is not under `tank`: a subtree member is `tank`
    // itself or continues with a slash.
    assert_eq!(zfs.next_under("tank"), 5);
    assert_eq!(zfs.next_under("tank/home"), 5);
    assert_eq!(zfs.next_under("tankother"), 10);
}

#[test]
fn filtered_selects_the_subtree_in_order() {
    let input = lines(&[
        "tank\t/tank",
        "tankother\t/elsewhere",
        "tank/home\t/home",
        "zoo\t/zoo",
    ]);
    let zfs = Zfs::new("caz", &input).unwrap();
    assert_eq!(zfs.filtered("tank"), vec![0, 2]);
    assert_eq!(zfs.filtered("zoo"), vec![3]);
    assert!(zfs.filtered("nothere").is_empty());
}

#[test]
fn snap_name_encodes_the_index() {
    let input = lines(&["tank\t/tank"]);
    let zfs = Zfs::new("caz", &input).unwrap();
    let name = zfs.snap_name(3);
    assert!(name.starts_with("caz0003-"));
    assert_eq!(zfs.snap_number(&name), Some(3));
    assert_eq!(snap_number_of("caz", &name), Some(3));
}

#[test]
fn take_snapshot_builds_the_recursive_command() {
    let input = lines(&["tank\t/tank", "tank@caz0001-20200101000000\t-"]);
    let zfs = Zfs::new("caz", &input).unwrap();
    let cmd = snapshot(&zfs, "tank");
    assert_eq!(cmd.program, "zfs");
    assert_eq!(cmd.args.len(), 3);
    assert_eq!(cmd.args[0], "snapshot");
    assert_eq!(cmd.args[1], "-r");
    assert!(cmd.args[2].starts_with("tank@caz0002-"));
}

#[test]
fn prune_unknown_volume_is_an_error() {
    let input = lines(&["tank\t/tank"]);
    let zfs = Zfs::new("caz", &input).unwrap();
    match prune(&zfs, "missing") {
        Err(Error::VolumeNotFound { name }) => assert_eq!(name, "missing"),
        other => panic!("expected volume-not-found, got {:?}", other),
    }
}
