use rack::backup::missing_snapshots;
use rack::backup::parse_auth;
use rack::backup::restic_backlog;
use rack::backup::restic_prune_candidates;
use rack::backup::sure_candidates;
use rack::backup::Limiter;
use rack::backup::ResticSnap;
use rack::backup::SnapshotInfo;
use rack::commands::destroy_cmd;
use rack::commands::get_props_cmd;
use rack::commands::list_cmd;
use rack::commands::pv_cmd;
use rack::commands::receive_cmd;
use rack::config::ResticConfig;
use rack::config::ResticVolume;
use rack::config::SnapConfig;
use rack::config::SnapConvention;
use rack::config::SnapVolume;
use rack::errors::Error;
use rack::format::humanize_size;
use rack::names::Timestamp;
use rack::strutil::find_char;
use rack::strutil::parse_u64;
use rack::strutil::split_once_at;
use rack::strutil::u64_string;

fn strings(raw: &[&str]) -> Vec<String> {
    raw.iter().map(|s| s.to_string()).collect()
}

#[test]
fn split_once_takes_the_first_separator() {
    assert_eq!(
        split_once_at("a\tb\tc", '\t'),
        Some(("a".to_string(), "b\tc".to_string()))
    );
    assert_eq!(split_once_at("abc", '\t'), None);
    assert_eq!(find_char("abca", 'a'), Some(0));
    assert_eq!(find_char("bcd", 'a'), None);
}

#[test]
fn decimal_parsing_and_rendering() {
    assert_eq!(parse_u64("0"), Some(0));
    assert_eq!(parse_u64("123456"), Some(123456));
    assert_eq!(parse_u64(""), None);
    assert_eq!(parse_u64("12x"), None);
    assert_eq!(parse_u64("18446744073709551615"), Some(u64::MAX));
    assert_eq!(parse_u64("18446744073709551616"), None);
    assert_eq!(u64_string(0), "0");
    assert_eq!(u64_string(9070), "9070");
}

#[test]
fn humanize_scales_and_pads() {
    assert_eq!(humanize_size(0), " 0.000B  ");
    assert_eq!(humanize_size(512), "512.00B  ");
    assert_eq!(humanize_size(1024), "1024.00B  ");
    assert_eq!(humanize_size(1536), " 1.500KiB");
    assert_eq!(humanize_size(1048576), "1024.00KiB");
    assert_eq!(humanize_size(3 * 1024 * 1024), " 3.000MiB");
}

#[test]
fn missing_snapshots_diffs_against_archive_names() {
    let snaps = strings(&["s1", "s2", "s3"]);
    let present = strings(&["gentoo-s1", "gentoo-s3"]);
    assert_eq!(
        missing_snapshots(&snaps, &present, "gentoo-"),
        strings(&["s2"])
    );
    // Without the prefix nothing matches the archive names.
    assert_eq!(missing_snapshots(&snaps, &present, ""), snaps);
}

#[test]
fn sure_candidates_filter_convention_and_versions() {
    let snaps = strings(&["caz-2020", "manual", "caz-2021"]);
    let versions = strings(&["caz-2020"]);
    assert_eq!(
        sure_candidates(&snaps, &versions, "caz"),
        strings(&["caz-2021"])
    );
}

#[test]
fn limiter_counts_down() {
    let mut l = Limiter(Some(2));
    assert!(!l.exhausted());
    assert!(!l.exhausted());
    assert!(l.exhausted());
    assert!(l.exhausted());
    let mut unlimited = Limiter(None);
    assert!(!unlimited.exhausted());
}

#[test]
fn backlog_skips_seen_and_honors_the_limit() {
    let snaps = strings(&["s1", "s2", "s3"]);
    let seen = strings(&["s2"]);
    let (todo, _) = restic_backlog(&snaps, &seen, Limiter(Some(1)));
    assert_eq!(todo, strings(&["s1"]));
    let (todo, _) = restic_backlog(&snaps, &seen, Limiter(None));
    assert_eq!(todo, strings(&["s1", "s3"]));
    let (todo, _) = restic_backlog(&snaps, &seen, Limiter(Some(0)));
    assert!(todo.is_empty());
}

#[test]
fn get_snaps_flattens_paths_and_tags() {
    let infos = vec![
        SnapshotInfo {
            paths: strings(&["/mnt/a", "/mnt/b"]),
            tags: Some(strings(&["t1"])),
        },
        SnapshotInfo {
            paths: strings(&["/mnt/c"]),
            tags: None,
        },
    ];
    let pairs = ResticConfig::get_snaps(&infos);
    assert_eq!(pairs.len(), 2);
    assert_eq!(pairs[0].path, "/mnt/a");
    assert_eq!(pairs[0].tag, "t1");
    assert_eq!(pairs[1].path, "/mnt/b");
    assert_eq!(pairs[1].tag, "t1");
}

#[test]
fn restic_prune_candidates_spare_recorded_snapshots() {
    let snaps = strings(&["s1", "s2"]);
    let records = vec![ResticSnap {
        path: "/mnt/a".to_string(),
        tag: "s1".to_string(),
    }];
    assert_eq!(
        restic_prune_candidates(&snaps, &records, "/mnt/a"),
        strings(&["s2"])
    );
    // A record under another bind does not protect the snapshot.
    assert_eq!(
        restic_prune_candidates(&snaps, &records, "/mnt/b"),
        strings(&["s1", "s2"])
    );
}

fn restic_volume(zfs: &str, bind: &str) -> ResticVolume {
    ResticVolume {
        name: zfs.to_string(),
        zfs: zfs.to_string(),
        bind: bind.to_string(),
        repo: "repo".to_string(),
        passwordfile: "pw".to_string(),
    }
}

#[test]
fn find_bind_wants_exactly_one_binding() {
    let config = ResticConfig {
        volumes: vec![
            restic_volume("tank/a", "/mnt/a"),
            restic_volume("tank/b", "/mnt/b"),
            restic_volume("tank/b", "/mnt/b"),
            restic_volume("tank/c", "/mnt/c1"),
            restic_volume("tank/c", "/mnt/c2"),
        ],
    };
    assert_eq!(config.find_bind("tank/a").unwrap(), "/mnt/a");
    assert_eq!(config.find_bind("tank/b").unwrap(), "/mnt/b");
    assert!(matches!(
        config.find_bind("tank/c"),
        Err(Error::BindMismatch { .. })
    ));
    assert!(matches!(
        config.find_bind("tank/d"),
        Err(Error::NoBindFound { .. })
    ));
}

#[test]
fn auth_entries_split_at_the_first_equals() {
    assert_eq!(
        parse_auth("AWS_KEY=abc=def").unwrap(),
        ("AWS_KEY".to_string(), "abc=def".to_string())
    );
    assert!(matches!(
        parse_auth("missing"),
        Err(Error::MalformedAuth { .. })
    ));
}

fn convention(name: &str) -> SnapConvention {
    SnapConvention {
        name: name.to_string(),
        last: None,
        hourly: None,
        daily: None,
        weekly: None,
        monthly: None,
        yearly: None,
    }
}

#[test]
fn snap_config_plans_one_command_per_volume() {
    let config = SnapConfig {
        conventions: vec![convention("c1")],
        volumes: vec![SnapVolume {
            name: "home".to_string(),
            convention: "c1".to_string(),
            zfs: "tank/home".to_string(),
        }],
    };
    let ts = Timestamp {
        year: 2020,
        month: 1,
        day: 2,
        hour: 3,
        minute: 4,
        second: 5,
    };
    let cmds = config.snapshot(ts).unwrap();
    assert_eq!(cmds.len(), 1);
    assert_eq!(cmds[0].program, "zfs");
    assert_eq!(
        cmds[0].args,
        vec!["snapshot", "-r", "tank/home@c1-202001020304"]
    );
}

#[test]
fn snap_config_rejects_unknown_conventions_before_running() {
    let config = SnapConfig {
        conventions: vec![convention("c1")],
        volumes: vec![SnapVolume {
            name: "home".to_string(),
            convention: "nope".to_string(),
            zfs: "tank/home".to_string(),
        }],
    };
    let ts = Timestamp {
        year: 2020,
        month: 1,
        day: 2,
        hour: 3,
        minute: 4,
        second: 5,
    };
    match config.snapshot(ts) {
        Err(Error::UnknownConvention { convention, volume }) => {
            assert_eq!(convention, "nope");
            assert_eq!(volume, "home");
        }
        other => panic!("expected unknown convention, got {:?}", other),
    }
}

#[test]
fn fixed_commands_have_their_documented_shapes() {
    let c = list_cmd();
    assert_eq!(c.program, "zfs");
    assert_eq!(
        c.args,
        vec!["list", "-H", "-t", "all", "-o", "name,mountpoint"]
    );
    assert_eq!(destroy_cmd("tank@s1").args, vec!["destroy", "tank@s1"]);
    assert_eq!(get_props_cmd("tank").args, vec!["get", "-Hp", "all", "tank"]);
    assert_eq!(receive_cmd("dest").args, vec!["receive", "-vFu", "dest"]);
    let pv = pv_cmd(123456);
    assert_eq!(pv.program, "pv");
    assert_eq!(pv.args, vec!["-s", "123456"]);
}
