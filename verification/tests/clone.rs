use rack::commands::pipeline_outcome;
use rack::errors::Error;
use rack::errors::Stage;
use rack::inventory::Filesystem;
use rack::replicate::parse_estimate;
use rack::replicate::parse_properties;
use rack::replicate::reconcile;
use rack::replicate::Transfer;
use rack::zfs::Zfs;

fn lines(raw: &[&str]) -> Vec<String> {
    raw.iter().map(|s| s.to_string()).collect()
}

fn fs(name: &str, snaps: &[&str]) -> Filesystem {
    Filesystem {
        name: name.to_string(),
        snaps: snaps.iter().map(|s| s.to_string()).collect(),
        mount: "-".to_string(),
    }
}

fn strings(raw: &[&str]) -> Vec<String> {
    raw.iter().map(|s| s.to_string()).collect()
}

#[test]
fn reconcile_in_sync_needs_no_transfer() {
    let src = fs("src", &["s1", "s2"]);
    let ts = reconcile(&src, "dest", &strings(&["s1", "s2"])).unwrap();
    assert!(ts.is_empty());
    // The destination may lag in older snapshots; only its newest
    // matters.
    let ts = reconcile(&src, "dest", &strings(&["s2"])).unwrap();
    assert!(ts.is_empty());
}

#[test]
fn reconcile_catches_up_with_one_incremental() {
    let src = fs("src", &["s1", "s2", "s3"]);
    let ts = reconcile(&src, "dest", &strings(&["s1"])).unwrap();
    assert_eq!(ts.len(), 1);
    match &ts[0] {
        Transfer::Incremental { from, to } => {
            assert_eq!(from, "s1");
            assert_eq!(to, "s3");
        }
        other => panic!("expected incremental, got {:?}", other),
    }
}

#[test]
fn reconcile_seeds_empty_destination_in_two_stages() {
    let src = fs("src", &["s1", "s2", "s3"]);
    let ts = reconcile(&src, "dest", &Vec::new()).unwrap();
    assert_eq!(ts.len(), 2);
    assert!(matches!(&ts[0], Transfer::Full { snap } if snap == "s1"));
    assert!(
        matches!(&ts[1], Transfer::Incremental { from, to } if from == "s1" && to == "s3")
    );
}

#[test]
fn reconcile_refuses_diverged_destination() {
    let src = fs("src", &["s1", "s2"]);
    match reconcile(&src, "dest", &strings(&["elsewhere"])) {
        Err(Error::DivergedDestination { source, dest }) => {
            assert_eq!(source, "src");
            assert_eq!(dest, "dest");
        }
        other => panic!("expected diverged error, got {:?}", other),
    }
}

#[test]
fn reconcile_refuses_empty_source() {
    let src = fs("src", &[]);
    match reconcile(&src, "dest", &Vec::new()) {
        Err(Error::NoSourceSnapshots { source }) => assert_eq!(source, "src"),
        other => panic!("expected no-source error, got {:?}", other),
    }
}

#[test]
fn clone_plan_is_idempotent_after_success() {
    // The destination mirrors the source exactly: re-running plans
    // zero transfers and creates nothing.
    let listing = lines(&[
        "src\t/src",
        "src@caz0000-20200101000000\t-",
        "src/a\t/src/a",
        "src/a@caz0001-20200102000000\t-",
        "dest\t/dest",
        "dest@caz0000-20200101000000\t-",
        "dest/a\t/dest/a",
        "dest/a@caz0001-20200102000000\t-",
    ]);
    let zfs = Zfs::new("caz", &listing).unwrap();
    let plan = zfs.clone("src", "dest").unwrap();
    assert_eq!(plan.len(), 2);
    for action in &plan {
        assert!(!action.create);
        assert!(action.transfers.is_empty());
    }
}

#[test]
fn clone_plan_creates_missing_destination_before_transfer() {
    // `src` and `src/a` exist; the destination subtree holds only
    // `dest`, so `dest/a` must be created and seeded.
    let listing = lines(&[
        "src\t/src",
        "src@caz0000-20200101000000\t-",
        "src/a\t/src/a",
        "src/a@caz0000-20200101000000\t-",
        "dest\t/dest",
        "dest@caz0000-20200101000000\t-",
    ]);
    let zfs = Zfs::new("caz", &listing).unwrap();
    let plan = zfs.clone("src", "dest").unwrap();
    assert_eq!(plan.len(), 2);

    assert_eq!(plan[0].source, "src");
    assert_eq!(plan[0].dest, "dest");
    assert!(!plan[0].create);
    assert!(plan[0].transfers.is_empty());

    assert_eq!(plan[1].source, "src/a");
    assert_eq!(plan[1].dest, "dest/a");
    assert!(plan[1].create);
    // A created destination is always seeded from scratch: the full
    // stream comes before anything incremental.
    assert_eq!(plan[1].transfers.len(), 2);
    assert!(matches!(&plan[1].transfers[0], Transfer::Full { .. }));
}

#[test]
fn clone_plan_stops_at_first_policy_violation() {
    let listing = lines(&[
        "src\t/src",
        "src@caz0000-20200101000000\t-",
        "dest\t/dest",
        "dest@foreign-snap\t-",
    ]);
    let zfs = Zfs::new("caz", &listing).unwrap();
    assert!(matches!(
        zfs.clone("src", "dest"),
        Err(Error::DivergedDestination { .. })
    ));
}

#[test]
fn transfer_commands_cover_the_exact_range() {
    let full = Transfer::Full {
        snap: "s1".to_string(),
    };
    let est = full.estimate_cmd("src/a");
    assert_eq!(est.program, "zfs");
    assert_eq!(est.args, vec!["send", "-nP", "src/a@s1"]);
    let send = full.send_cmd("src/a");
    assert_eq!(send.args, vec!["send", "src/a@s1"]);

    let incr = Transfer::Incremental {
        from: "s1".to_string(),
        to: "s3".to_string(),
    };
    let est = incr.estimate_cmd("src/a");
    assert_eq!(est.args, vec!["send", "-nP", "-I", "@s1", "src/a@s3"]);
    let send = incr.send_cmd("src/a");
    assert_eq!(send.args, vec!["send", "-I", "@s1", "src/a@s3"]);
}

#[test]
fn estimate_takes_the_first_size_line() {
    let out = lines(&["incremental\ts1\ts2\t999", "size\t123456", "size\t1"]);
    assert_eq!(parse_estimate(&out).unwrap(), 123456);
}

#[test]
fn estimate_without_size_line_is_zero() {
    let out = lines(&["incremental\ts1\ts2\t999"]);
    assert_eq!(parse_estimate(&out).unwrap(), 0);
    assert_eq!(parse_estimate(&Vec::new()).unwrap(), 0);
}

#[test]
fn estimate_rejects_malformed_lines() {
    match parse_estimate(&lines(&["no-tab-here"])) {
        Err(Error::MalformedEstimateLine { line }) => assert_eq!(line, "no-tab-here"),
        other => panic!("expected malformed estimate line, got {:?}", other),
    }
    match parse_estimate(&lines(&["size\tnot-a-number"])) {
        Err(Error::BadEstimateSize { line }) => assert_eq!(line, "size\tnot-a-number"),
        other => panic!("expected bad size, got {:?}", other),
    }
}

#[test]
fn properties_copy_local_and_received_but_not_the_mountpoint() {
    let out = lines(&[
        "tank\tmountpoint\t/tank\tlocal",
        "tank\tcompression\ton\tlocal",
        "tank\tatime\toff\treceived",
        "tank\txattr\tsa\tdefault",
        "tank\trelatime\ton\tinherited",
    ]);
    let props = parse_properties(&out).unwrap();
    assert_eq!(
        props,
        vec![
            ("compression".to_string(), "on".to_string()),
            ("atime".to_string(), "off".to_string()),
        ]
    );
    let cmd = zfs_create(&props);
    assert_eq!(
        cmd.args,
        vec!["create", "-o", "compression=on", "-o", "atime=off", "dest/a"]
    );
}

fn zfs_create(props: &Vec<(String, String)>) -> rack::commands::Cmd {
    rack::commands::create_cmd(props, "dest/a")
}

#[test]
fn property_line_without_four_fields_is_fatal() {
    match parse_properties(&lines(&["tank\tcompression\ton"])) {
        Err(Error::MalformedPropertyLine { line }) => {
            assert_eq!(line, "tank\tcompression\ton")
        }
        other => panic!("expected malformed property line, got {:?}", other),
    }
}

#[test]
fn pipeline_fails_when_any_stage_fails() {
    assert!(pipeline_outcome(true, true, true).is_ok());
    assert_eq!(
        pipeline_outcome(false, true, true),
        Err(Error::StageFailed {
            stage: Stage::Extract
        })
    );
    assert_eq!(
        pipeline_outcome(true, false, true),
        Err(Error::StageFailed {
            stage: Stage::Monitor
        })
    );
    // The ingester failing alone still fails the whole transfer.
    assert_eq!(
        pipeline_outcome(true, true, false),
        Err(Error::StageFailed {
            stage: Stage::Ingest
        })
    );
}
