//! The retention engine: logarithmic thinning of old snapshots.
//!
//! Snapshots are scanned newest to oldest.  The newest `keep` are
//! retained unconditionally.  Among the older ones, the first snapshot
//! seen with a given population count (set bits of its index) is the
//! youngest representative of that generation and is kept; every later
//! (older) repeat of an already-seen population count is a deletion
//! candidate.  Candidates are returned oldest first, as fully
//! qualified `volume@snapshot` names.  The policy is pure: issuing the
//! destroy commands is a separate, explicitly gated step.

use vstd::prelude::*;
use vstd::string::StrSliceExecFns;
use vstd::string::StringExecFns;

use crate::errors::Error;
use crate::inventory::FsModel;
use crate::names::snap_index;
use crate::names::snap_matches;
use crate::strutil::str_eq;
use crate::zfs::Zfs;

verus! {

/// How many of the newest snapshots are never candidates.
pub const PRUNE_KEEP: usize = 10;

/// Number of set bits in the binary representation of `n`.
pub open spec fn popcount(n: nat) -> nat
    decreases n,
{
    if n == 0 {
        0
    } else {
        popcount(n / 2) + n % 2
    }
}

pub proof fn lemma_popcount_le(n: nat)
    ensures
        popcount(n) <= n,
    decreases n,
{
    if n > 0 {
        lemma_popcount_le(n / 2);
    }
}

/// Count the set bits of `n`.
pub fn popcount_usize(n: usize) -> (r: usize)
    ensures
        r == popcount(n as nat),
{
    let mut m = n;
    let mut c: usize = 0;
    proof {
        lemma_popcount_le(n as nat);
    }
    while m > 0
        invariant
            c + popcount(m as nat) == popcount(n as nat),
            popcount(n as nat) <= n,
        decreases m,
    {
        c = c + m % 2;
        m = m / 2;
    }
    c
}

/// The snapshots of `snaps` that follow the convention under
/// `prefix`, keeping their order.
pub open spec fn managed(prefix: Seq<char>, snaps: Seq<Seq<char>>) -> Seq<Seq<char>>
    decreases snaps.len(),
{
    if snaps.len() == 0 {
        Seq::empty()
    } else {
        let rest = managed(prefix, snaps.drop_last());
        if snap_matches(prefix, snaps.last()) {
            rest.push(snaps.last())
        } else {
            rest
        }
    }
}

/// `s` backwards: element `i` is `s[len - 1 - i]`.
pub open spec fn rev_of(s: Seq<Seq<char>>) -> Seq<Seq<char>> {
    Seq::new(s.len(), |i: int| s[s.len() - 1 - i])
}

/// The population counts met while scanning `rev` (newest first) from
/// position `keep` up to, excluding, position `i`.
pub open spec fn seen_pops(prefix: Seq<char>, rev: Seq<Seq<char>>, keep: int, i: int) -> Set<nat>
    decreases i - keep,
{
    if i <= keep {
        Set::empty()
    } else {
        seen_pops(prefix, rev, keep, i - 1).insert(popcount(snap_index(prefix, rev[i - 1])))
    }
}

/// Is the snapshot at newest-first position `i` a deletion candidate?
/// Only positions past the keep window are, and only when their
/// population count was already seen at a younger position.
pub open spec fn pruned_at(prefix: Seq<char>, rev: Seq<Seq<char>>, keep: int, i: int) -> bool {
    &&& keep <= i < rev.len()
    &&& seen_pops(prefix, rev, keep, i).contains(popcount(snap_index(prefix, rev[i])))
}

/// The fully qualified deletion candidates among the oldest `q`
/// managed snapshots of `m` (oldest first), oldest first.
pub open spec fn prune_names_upto(
    prefix: Seq<char>,
    fsname: Seq<char>,
    m: Seq<Seq<char>>,
    keep: int,
    q: int,
) -> Seq<Seq<char>>
    decreases q,
{
    if q <= 0 {
        Seq::empty()
    } else {
        let rest = prune_names_upto(prefix, fsname, m, keep, q - 1);
        if pruned_at(prefix, rev_of(m), keep, m.len() - q) {
            rest.push(fsname + seq!['@'] + m[q - 1])
        } else {
            rest
        }
    }
}

/// Every deletion candidate for a filesystem whose managed history is
/// `m`, oldest first.
pub open spec fn prune_names(
    prefix: Seq<char>,
    fsname: Seq<char>,
    m: Seq<Seq<char>>,
    keep: int,
) -> Seq<Seq<char>> {
    prune_names_upto(prefix, fsname, m, keep, m.len() as int)
}

/// Does `v` hold `x`?
fn contains_usize(v: &Vec<usize>, x: usize) -> (r: bool)
    ensures
        r == v@.contains(x),
{
    let mut i: usize = 0;
    while i < v.len()
        invariant
            i <= v@.len(),
            forall|k: int| 0 <= k < i ==> v@[k] != x,
        decreases v@.len() - i,
    {
        if v[i] == x {
            return true;
        }
        i = i + 1;
    }
    false
}

impl Zfs {
    /// The index of the first filesystem named `name`, if any.
    pub fn find_filesystem(&self, name: &str) -> (r: Option<usize>)
        ensures
            match r {
                Some(fi) => {
                    &&& fi < self.models().len()
                    &&& self.models()[fi as int].name == name@
                    &&& forall|k: int| 0 <= k < fi ==> self.models()[k].name != name@
                },
                None => forall|k: int|
                    0 <= k < self.models().len() ==> self.models()[k].name != name@,
            },
    {
        let mut i: usize = 0;
        while i < self.filesystems.len()
            invariant
                i <= self.filesystems.len(),
                self.models().len() == self.filesystems.len(),
                forall|k: int| 0 <= k < i ==> self.models()[k].name != name@,
            decreases self.filesystems.len() - i,
        {
            proof {
                assert(self.models()[i as int] == self.filesystems@[i as int]@);
            }
            if str_eq(self.filesystems[i].name.as_str(), name) {
                return Some(i);
            }
            i = i + 1;
        }
        None
    }

    /// Compute the deletion candidates for `fs_name` under this
    /// inventory's prefix: the Hanoi-style thinning of its managed
    /// snapshot history, sparing the newest `keep`, oldest candidate
    /// first.  Read-only; the caller decides whether to destroy.
    pub fn prune(&self, fs_name: &str, keep: usize) -> (r: Result<Vec<String>, Error>)
        ensures
            match r {
                Ok(out) => exists|fi: int|
                    {
                        &&& 0 <= fi < self.models().len()
                        &&& (#[trigger] self.models()[fi]).name == fs_name@
                        &&& (forall|k: int| 0 <= k < fi ==> self.models()[k].name != fs_name@)
                        &&& out.deep_view() == prune_names(
                            self.prefix@,
                            fs_name@,
                            managed(self.prefix@, self.models()[fi].snaps),
                            keep as int,
                        )
                    },
                Err(e) => {
                    &&& e matches Error::VolumeNotFound { name } && name@ == fs_name@
                    &&& forall|k: int|
                        0 <= k < self.models().len() ==> self.models()[k].name != fs_name@
                },
            },
    {
        let fi = match self.find_filesystem(fs_name) {
            Some(fi) => fi,
            None => {
                return Err(Error::VolumeNotFound { name: fs_name.to_owned() });
            },
        };
        let fs = &self.filesystems[fi];
        proof {
            assert(self.models()[fi as int] == self.filesystems@[fi as int]@);
        }
        let ghost snaps = fs@.snaps;

        // Collect the managed snapshots, oldest first, with their
        // decoded indices.
        let mut msnaps: Vec<String> = Vec::new();
        let mut nums: Vec<usize> = Vec::new();
        let mut j: usize = 0;
        proof {
            assert(snaps.take(0) =~= Seq::<Seq<char>>::empty());
            assert(msnaps.deep_view() =~= managed(self.prefix@, snaps.take(0)));
        }
        while j < fs.snaps.len()
            invariant
                snaps == fs@.snaps,
                snaps.len() == fs.snaps@.len(),
                j <= fs.snaps@.len(),
                fs@.snaps.len() == fs.snaps@.len(),
                msnaps.deep_view() == managed(self.prefix@, snaps.take(j as int)),
                nums@.len() == msnaps@.len(),
                forall|k: int|
                    0 <= k < msnaps@.len() ==> snap_matches(
                        self.prefix@,
                        #[trigger] msnaps.deep_view()[k],
                    ) && nums@[k] == snap_index(self.prefix@, msnaps.deep_view()[k]),
            decreases fs.snaps@.len() - j,
        {
            proof {
                assert(snaps[j as int] == fs.snaps@[j as int]@);
                assert(snaps.take(j + 1).drop_last() =~= snaps.take(j as int));
                assert(snaps.take(j + 1).last() == snaps[j as int]);
            }
            let ghost before = msnaps.deep_view();
            match self.snap_number(fs.snaps[j].as_str()) {
                Some(num) => {
                    msnaps.push(fs.snaps[j].clone());
                    nums.push(num);
                    proof {
                        assert(msnaps.deep_view() =~= before.push(snaps[j as int]));
                    }
                },
                None => {},
            }
            j = j + 1;
        }
        proof {
            assert(snaps.take(snaps.len() as int) =~= snaps);
        }
        let ghost m = msnaps.deep_view();
        let ghost rev = rev_of(m);
        let l = msnaps.len();

        // Scan newest to oldest, marking repeats of an already-seen
        // population count.
        let mut flags: Vec<bool> = Vec::new();
        let mut seen: Vec<usize> = Vec::new();
        let ghost mut sset: Set<nat> = Set::empty();
        let mut idx: usize = 0;
        while idx < l
            invariant
                m == msnaps.deep_view(),
                rev == rev_of(m),
                l == m.len(),
                nums@.len() == l,
                forall|k: int|
                    0 <= k < l ==> snap_matches(self.prefix@, #[trigger] msnaps.deep_view()[k])
                        && nums@[k] == snap_index(self.prefix@, msnaps.deep_view()[k]),
                idx <= l,
                flags@.len() == idx,
                forall|t: int|
                    0 <= t < idx ==> flags@[t] == pruned_at(self.prefix@, rev, keep as int, t),
                sset == seen_pops(self.prefix@, rev, keep as int, idx as int),
                forall|k: int| 0 <= k < seen@.len() ==> sset.contains(#[trigger] seen@[k] as nat),
                forall|b0: nat|
                    #[trigger] sset.contains(b0) ==> exists|k: int|
                        0 <= k < seen@.len() && seen@[k] as nat == b0,
            decreases l - idx,
        {
            let num = nums[l - 1 - idx];
            let b = popcount_usize(num);
            proof {
                assert(rev[idx as int] == m[l - 1 - idx]);
                assert(popcount(snap_index(self.prefix@, rev[idx as int])) == b as nat);
            }
            if idx < keep {
                flags.push(false);
                proof {
                    assert(seen_pops(self.prefix@, rev, keep as int, idx + 1) =~= sset);
                }
            } else {
                let hit = contains_usize(&seen, b);
                proof {
                    if hit {
                        let k = choose|k: int| 0 <= k < seen@.len() && seen@[k] == b;
                        assert(sset.contains(seen@[k] as nat));
                        assert(sset.contains(b as nat));
                    } else {
                        if sset.contains(b as nat) {
                            let k = choose|k: int|
                                0 <= k < seen@.len() && #[trigger] seen@[k] as nat == b as nat;
                            assert(seen@[k] == b);
                            assert(seen@.contains(b));
                            assert(false);
                        }
                    }
                    assert(hit == sset.contains(b as nat));
                    assert(pruned_at(self.prefix@, rev, keep as int, idx as int) == hit);
                }
                flags.push(hit);
                let ghost seen_before = seen@;
                if !hit {
                    seen.push(b);
                }
                proof {
                    sset = sset.insert(b as nat);
                    assert(sset =~= seen_pops(self.prefix@, rev, keep as int, idx + 1));
                    assert(forall|k: int|
                        0 <= k < seen_before.len() ==> seen@[k] == #[trigger] seen_before[k]);
                    if !hit {
                        assert(seen@[seen@.len() - 1] == b);
                    }
                    assert forall|b0: nat| #[trigger] sset.contains(b0) implies exists|k: int|
                        0 <= k < seen@.len() && seen@[k] as nat == b0 by {
                        if b0 == b as nat {
                            if hit {
                                let k = choose|k: int|
                                    0 <= k < seen_before.len() && seen_before[k] == b;
                                assert(seen@[k] as nat == b0);
                            } else {
                                assert(seen@[seen@.len() - 1] as nat == b0);
                            }
                        } else {
                            let k = choose|k: int|
                                0 <= k < seen_before.len() && #[trigger] seen_before[k] as nat
                                    == b0;
                            assert(seen@[k] as nat == b0);
                        }
                    }
                }
            }
            idx = idx + 1;
        }

        // Emit the marked snapshots oldest first, fully qualified.
        let mut out: Vec<String> = Vec::new();
        let mut q: usize = 0;
        proof {
            assert(out.deep_view() =~= prune_names_upto(
                self.prefix@,
                fs_name@,
                m,
                keep as int,
                0,
            ));
        }
        while q < l
            invariant
                m == msnaps.deep_view(),
                rev == rev_of(m),
                l == m.len(),
                l == msnaps@.len(),
                flags@.len() == l,
                forall|t: int|
                    0 <= t < l ==> flags@[t] == pruned_at(self.prefix@, rev, keep as int, t),
                q <= l,
                out.deep_view() == prune_names_upto(
                    self.prefix@,
                    fs_name@,
                    m,
                    keep as int,
                    q as int,
                ),
            decreases l - q,
        {
            let ghost before = out.deep_view();
            if flags[l - 1 - q] {
                let mut full = fs_name.to_owned();
                full.append("@");
                full.append(msnaps[q].as_str());
                proof {
                    reveal_strlit("@");
                    assert(m[q as int] == msnaps@[q as int]@);
                    assert(full@ =~= fs_name@ + seq!['@'] + m[q as int]);
                }
                out.push(full);
                proof {
                    assert(out.deep_view() =~= before.push(fs_name@ + seq!['@'] + m[q as int]));
                }
            }
            proof {
                assert((l - 1 - q) as int == m.len() - (q + 1));
            }
            q = q + 1;
        }
        proof {
            assert(out.deep_view() == prune_names(
                self.prefix@,
                fs_name@,
                managed(self.prefix@, self.models()[fi as int].snaps),
                keep as int,
            ));
        }
        Ok(out)
    }
}

/// Compute the deletion candidates for `filesystem` with the default
/// keep window.  Pure: the caller prints them in a dry run, or issues
/// one destroy command per name when asked to really prune.
pub fn prune(zfs: &Zfs, filesystem: &str) -> (r: Result<Vec<String>, Error>)
    ensures
        match r {
            Ok(out) => exists|fi: int|
                {
                    &&& 0 <= fi < zfs.models().len()
                    &&& (#[trigger] zfs.models()[fi]).name == filesystem@
                    &&& (forall|k: int| 0 <= k < fi ==> zfs.models()[k].name != filesystem@)
                    &&& out.deep_view() == prune_names(
                        zfs.prefix@,
                        filesystem@,
                        managed(zfs.prefix@, zfs.models()[fi].snaps),
                        PRUNE_KEEP as int,
                    )
                },
            Err(e) => {
                &&& e matches Error::VolumeNotFound { name } && name@ == filesystem@
                &&& forall|k: int|
                    0 <= k < zfs.models().len() ==> zfs.models()[k].name != filesystem@
            },
        },
{
    zfs.prune(filesystem, PRUNE_KEEP)
}

} // verus!
