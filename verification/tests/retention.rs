use rack::retention::popcount_usize;
use rack::retention::prune;
use rack::zfs::Zfs;

fn lines(raw: &[&str]) -> Vec<String> {
    raw.iter().map(|s| s.to_string()).collect()
}

fn snap_name(i: usize) -> String {
    format!("caz{:04}-2020010100{:02}00", i, i)
}

/// A listing with one volume whose managed history carries the given
/// indices, oldest first.
fn tank_with_indices(indices: &[usize]) -> Vec<String> {
    let mut out = vec!["tank/data\t/data".to_string()];
    for &i in indices {
        out.push(format!("tank/data@{}\t-", snap_name(i)));
    }
    out
}

#[test]
fn popcount_counts_set_bits() {
    assert_eq!(popcount_usize(0), 0);
    assert_eq!(popcount_usize(1), 1);
    assert_eq!(popcount_usize(2), 1);
    assert_eq!(popcount_usize(3), 2);
    assert_eq!(popcount_usize(255), 8);
    assert_eq!(popcount_usize(256), 1);
}

#[test]
fn retention_keeps_window_and_first_popcount_representatives() {
    // Indices 0..=7, oldest to newest, keep window 2: 6 and 7 are
    // spared; scanning 5,4,3,2,1,0 newest-to-oldest keeps the first
    // occurrence of each population count (5: two bits, 4: one bit,
    // 0: zero bits) and marks the repeats 3, 2, 1 for deletion,
    // reported oldest first.
    let listing = tank_with_indices(&[0, 1, 2, 3, 4, 5, 6, 7]);
    let zfs = Zfs::new("caz", &listing).unwrap();
    let out = zfs.prune("tank/data", 2).unwrap();
    assert_eq!(
        out,
        vec![
            format!("tank/data@{}", snap_name(1)),
            format!("tank/data@{}", snap_name(2)),
            format!("tank/data@{}", snap_name(3)),
        ]
    );
}

#[test]
fn retention_default_window_spares_ten() {
    // Eight snapshots all fall inside the default keep window.
    let listing = tank_with_indices(&[0, 1, 2, 3, 4, 5, 6, 7]);
    let zfs = Zfs::new("caz", &listing).unwrap();
    let out = prune(&zfs, "tank/data").unwrap();
    assert!(out.is_empty());
}

#[test]
fn retention_ignores_foreign_snapshots() {
    // Snapshots of another convention are invisible: they count
    // neither for the keep window nor as candidates.
    let mut listing = tank_with_indices(&[0, 1, 2, 3]);
    listing.push("tank/data@manual-backup\t-".to_string());
    let zfs = Zfs::new("caz", &listing).unwrap();
    let out = zfs.prune("tank/data", 1).unwrap();
    // Newest (3) spared; 2 (one bit) kept, 1 (one bit) pruned,
    // 0 (zero bits) kept.
    assert_eq!(out, vec![format!("tank/data@{}", snap_name(1))]);
    assert!(!out.iter().any(|n| n.contains("manual-backup")));
}

#[test]
fn retention_with_zero_window_still_thins() {
    let listing = tank_with_indices(&[1, 2, 3]);
    let zfs = Zfs::new("caz", &listing).unwrap();
    let out = zfs.prune("tank/data", 0).unwrap();
    // Newest first: 3 (two bits, kept), 2 (one bit, kept),
    // 1 (one bit, repeat: pruned).
    assert_eq!(out, vec![format!("tank/data@{}", snap_name(1))]);
}
