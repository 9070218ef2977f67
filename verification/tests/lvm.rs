use rack::errors::Error;
use rack::lvm::parse;
use rack::lvm::record_get;
use rack::lvm::Lvm;
use rack::lvm::SuffixGen;
use rack::names::Timestamp;

fn strings(raw: &[&str]) -> Vec<String> {
    raw.iter().map(|s| s.to_string()).collect()
}

fn date(year: u32, month: u32, day: u32) -> Timestamp {
    Timestamp {
        year,
        month,
        day,
        hour: 0,
        minute: 0,
        second: 0,
    }
}

#[test]
fn record_line_parses_quoted_pairs() {
    let pairs = parse("  LVM2_VG_NAME='ubuntu-vg' LVM2_LV_NAME='root' LVM2_ORIGIN=''").unwrap();
    assert_eq!(
        pairs,
        vec![
            ("LVM2_VG_NAME".to_string(), "ubuntu-vg".to_string()),
            ("LVM2_LV_NAME".to_string(), "root".to_string()),
            ("LVM2_ORIGIN".to_string(), "".to_string()),
        ]
    );
    // Values may hold spaces and equals signs.
    let pairs = parse("A='x = y'").unwrap();
    assert_eq!(pairs, vec![("A".to_string(), "x = y".to_string())]);
}

#[test]
fn record_line_without_quote_is_fatal() {
    assert!(matches!(
        parse("KEY=unquoted"),
        Err(Error::MalformedRecordLine { .. })
    ));
}

#[test]
fn record_lookup_takes_the_last_pair() {
    let pairs = parse("K='a' K='b'").unwrap();
    assert_eq!(record_get(&pairs, "K"), Some("b".to_string()));
    assert_eq!(record_get(&pairs, "missing"), None);
}

#[test]
fn scan_classifies_main_and_snapshot_records() {
    let listing = strings(&[
        "LVM2_VG_NAME='ubuntu-vg' LVM2_LV_NAME='home' LVM2_ORIGIN=''",
        "LVM2_VG_NAME='ubuntu-vg' LVM2_LV_NAME='home-2020-01-01' LVM2_ORIGIN='home'",
        "LVM2_VG_NAME='ubuntu-vg' LVM2_LV_NAME='root' LVM2_ORIGIN=''",
        "LVM2_VG_NAME='other-vg' LVM2_LV_NAME='home' LVM2_ORIGIN='home'",
    ]);
    let lvm = Lvm::scan("ubuntu-vg", "home", &listing).unwrap();
    assert_eq!(lvm.vg, "ubuntu-vg");
    assert_eq!(lvm.lv, "home");
    assert_eq!(lvm.snaps, strings(&["home-2020-01-01"]));
}

#[test]
fn scan_refuses_duplicate_main_records() {
    let listing = strings(&[
        "LVM2_VG_NAME='vg' LVM2_LV_NAME='home' LVM2_ORIGIN=''",
        "LVM2_VG_NAME='vg' LVM2_LV_NAME='home' LVM2_ORIGIN=''",
    ]);
    assert!(matches!(
        Lvm::scan("vg", "home", &listing),
        Err(Error::DuplicateRecord { .. })
    ));
}

#[test]
fn scan_requires_the_volume_to_exist() {
    let listing = strings(&["LVM2_VG_NAME='vg' LVM2_LV_NAME='other' LVM2_ORIGIN=''"]);
    match Lvm::scan("vg", "home", &listing) {
        Err(Error::RecordNotFound { name }) => assert_eq!(name, "home"),
        other => panic!("expected record-not-found, got {:?}", other),
    }
}

#[test]
fn suffixes_run_through_the_alphabet_then_widen() {
    let mut g = SuffixGen::new();
    assert_eq!(g.next(), Some("a".to_string()));
    assert_eq!(g.next(), Some("b".to_string()));
    let mut g = SuffixGen::new();
    let mut last = String::new();
    for _ in 0..27 {
        last = g.next().unwrap();
    }
    assert_eq!(last, "aa");
}

#[test]
fn new_name_prefers_the_plain_date() {
    let lvm = Lvm {
        vg: "vg".to_string(),
        lv: "home".to_string(),
        snaps: strings(&["home-2019-12-31"]),
    };
    assert_eq!(
        lvm.new_name(date(2020, 1, 2)),
        Some("home-2020-01-02".to_string())
    );
}

#[test]
fn new_name_appends_letters_when_taken() {
    let lvm = Lvm {
        vg: "vg".to_string(),
        lv: "home".to_string(),
        snaps: strings(&["home-2020-01-02", "home-2020-01-02a"]),
    };
    assert_eq!(
        lvm.new_name(date(2020, 1, 2)),
        Some("home-2020-01-02b".to_string())
    );
}

#[test]
fn snapshot_lifecycle_commands() {
    let mut lvm = Lvm {
        vg: "vg".to_string(),
        lv: "home".to_string(),
        snaps: Vec::new(),
    };
    let create = lvm.create_snapshot("home-2020-01-02");
    assert_eq!(create.program, "lvcreate");
    assert_eq!(create.args, vec!["-s", "-n", "home-2020-01-02", "vg/home"]);
    assert_eq!(lvm.snaps, strings(&["home-2020-01-02"]));

    let mount = lvm.mount_snapshot("home-2020-01-02", "/mnt/root");
    assert!(!mount.mounted);
    assert_eq!(mount.activate_cmd().program, "lvchange");
    assert_eq!(
        mount.activate_cmd().args,
        vec!["-ay", "-K", "vg/home-2020-01-02"]
    );
    assert_eq!(
        mount.fsck_cmd().args,
        vec!["-p", "/dev/vg/home-2020-01-02"]
    );
    assert_eq!(
        mount.mount_cmd().args,
        vec!["-r", "/dev/vg/home-2020-01-02", "/mnt/root"]
    );
    assert_eq!(mount.unmount_cmd().args, vec!["/mnt/root"]);
    assert_eq!(
        mount.deactivate_cmd().args,
        vec!["-an", "-K", "vg/home-2020-01-02"]
    );
}
