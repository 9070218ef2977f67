//! The snapshot engine's central type: a prefix-scoped view of the
//! pool's filesystems.
//!
//! A `Zfs` value is built once from a listing, is immutable afterwards,
//! and is never patched to reflect commands the engine itself issues; a
//! caller wanting post-mutation state builds a fresh one from a fresh
//! listing.

use vstd::prelude::*;
use vstd::string::StrSliceExecFns;
use vstd::string::StringExecFns;

use crate::commands::Cmd;
use crate::commands::snapshot_cmd;
use crate::errors::Error;
use crate::inventory::FsModel;
use crate::inventory::ListingErr;
use crate::inventory::build_inventory;
use crate::inventory::listing_err_matches;
use crate::inventory::parse_listing;
use crate::inventory::Filesystem;
use crate::names::Timestamp;
use crate::names::now_timestamp;
use crate::names::render_snap_name;
use crate::names::snap_index;
use crate::names::snap_matches;
use crate::names::snap_name_spec;
use crate::names::snap_number_of;
use crate::strutil::is_subtree_member;
use crate::strutil::subtree_member;

verus! {

/// The filesystems found on the system, scoped to one snapshot-naming
/// prefix.  Snapshots whose names do not follow the convention under
/// this prefix are carried but invisible to the namer and the
/// retention engine.
#[derive(Debug)]
pub struct Zfs {
    /// The snapshot prefix.  Different prefixes can be used at
    /// different times, giving independent snapshot families.
    pub prefix: String,
    /// The filesystems, in listing order.
    pub filesystems: Vec<Filesystem>,
}

impl Zfs {
    /// The inventory as a sequence of models, in listing order.
    pub open spec fn models(self) -> Seq<FsModel> {
        self.filesystems.deep_view()
    }

    /// `(i, j)` points at a snapshot of a filesystem under `under`
    /// whose name follows the convention under this prefix.
    pub open spec fn managed_snap_in(self, under: Seq<char>, i: int, j: int) -> bool {
        &&& 0 <= i < self.models().len()
        &&& subtree_member(under, self.models()[i].name)
        &&& 0 <= j < self.models()[i].snaps.len()
        &&& snap_matches(self.prefix@, self.models()[i].snaps[j])
    }

    /// Build the engine's view from a raw listing.
    pub fn new(prefix: &str, listing: &Vec<String>) -> (r: Result<Zfs, Error>)
        ensures
            match r {
                Ok(z) => {
                    &&& z.prefix@ == prefix@
                    &&& build_inventory(listing.deep_view()) == Ok::<Seq<FsModel>, ListingErr>(
                        z.models(),
                    )
                },
                Err(e) => build_inventory(listing.deep_view()) matches Err(m)
                    && listing_err_matches(e, m),
            },
    {
        let filesystems = match parse_listing(listing) {
            Ok(fss) => fss,
            Err(e) => {
                return Err(e);
            },
        };
        Ok(Zfs { prefix: prefix.to_owned(), filesystems })
    }

    /// Decode the snapshot index of `text` under this inventory's
    /// prefix, `None` when the name is not under the convention.
    pub fn snap_number(&self, text: &str) -> (r: Option<usize>)
        ensures
            match r {
                Some(n) => {
                    &&& snap_matches(self.prefix@, text@)
                    &&& n == snap_index(self.prefix@, text@)
                    &&& n <= 9999
                },
                None => !snap_matches(self.prefix@, text@),
            },
    {
        snap_number_of(self.prefix.as_str(), text)
    }

    /// The indices of the filesystems under `under`, in listing order.
    pub fn filtered(&self, under: &str) -> (r: Vec<usize>)
        ensures
            forall|a: int, b: int| 0 <= a < b < r@.len() ==> r@[a] < r@[b],
            forall|a: int|
                0 <= a < r@.len() ==> r@[a] < self.models().len() && subtree_member(
                    under@,
                    self.models()[r@[a] as int].name,
                ),
            forall|i: int|
                0 <= i < self.models().len() && subtree_member(under@, self.models()[i].name)
                    ==> r@.contains(i as usize),
    {
        let mut r: Vec<usize> = Vec::new();
        let mut i: usize = 0;
        while i < self.filesystems.len()
            invariant
                i <= self.filesystems.len(),
                self.models().len() == self.filesystems.len(),
                forall|a: int, b: int| 0 <= a < b < r@.len() ==> r@[a] < r@[b],
                forall|a: int|
                    0 <= a < r@.len() ==> r@[a] < i && subtree_member(
                        under@,
                        self.models()[r@[a] as int].name,
                    ),
                forall|k: int|
                    0 <= k < i && subtree_member(under@, self.models()[k].name) ==> r@.contains(
                        k as usize,
                    ),
            decreases self.filesystems.len() - i,
        {
            let fs = &self.filesystems[i];
            proof {
                assert(self.models()[i as int] == self.filesystems@[i as int]@);
            }
            if is_subtree_member(under, fs.name.as_str()) {
                let ghost prev = r@;
                r.push(i);
                proof {
                    assert(r@ == prev.push(i));
                    assert(forall|a: int| 0 <= a < prev.len() ==> r@[a] == #[trigger] prev[a]);
                    assert(r@[r@.len() - 1] == i);
                    assert(forall|k: int|
                        0 <= k < i + 1 && subtree_member(under@, self.models()[k].name)
                            ==> r@.contains(k as usize)) by {
                        assert forall|k: int|
                            0 <= k < i + 1 && subtree_member(
                                under@,
                                self.models()[k].name,
                            ) implies r@.contains(k as usize) by {
                            if k < i {
                                assert(prev.contains(k as usize));
                                let a = choose|a: int|
                                    0 <= a < prev.len() && prev[a] == k as usize;
                                assert(r@[a] == k as usize);
                            } else {
                                assert(r@[r@.len() - 1] == k as usize);
                            }
                        }
                    }
                }
            }
            i = i + 1;
        }
        r
    }

    /// The next free snapshot index under `under`: one more than the
    /// largest index any conventional snapshot in that subtree carries,
    /// or zero when there is none.  Max-plus-one, not a count.
    pub fn next_under(&self, under: &str) -> (r: usize)
        ensures
            r <= 10000,
            forall|i: int, j: int|
                self.managed_snap_in(under@, i, j) ==> snap_index(
                    self.prefix@,
                    self.models()[i].snaps[j],
                ) < r,
            r > 0 ==> exists|i: int, j: int|
                self.managed_snap_in(under@, i, j) && snap_index(
                    self.prefix@,
                    self.models()[i].snaps[j],
                ) == r - 1,
    {
        let mut next: usize = 0;
        let ghost mut wi: int = 0;
        let ghost mut wj: int = 0;
        let mut i: usize = 0;
        while i < self.filesystems.len()
            invariant
                i <= self.filesystems.len(),
                self.models().len() == self.filesystems.len(),
                next <= 10000,
                forall|a: int, b: int|
                    self.managed_snap_in(under@, a, b) && a < i ==> snap_index(
                        self.prefix@,
                        self.models()[a].snaps[b],
                    ) < next,
                next > 0 ==> self.managed_snap_in(under@, wi, wj) && snap_index(
                    self.prefix@,
                    self.models()[wi].snaps[wj],
                ) == next - 1,
            decreases self.filesystems.len() - i,
        {
            let fs = &self.filesystems[i];
            proof {
                assert(self.models()[i as int] == self.filesystems@[i as int]@);
            }
            if is_subtree_member(under, fs.name.as_str()) {
                let mut j: usize = 0;
                while j < fs.snaps.len()
                    invariant
                        i < self.filesystems.len(),
                        self.models().len() == self.filesystems.len(),
                        self.models()[i as int] == fs@,
                        subtree_member(under@, fs@.name),
                        j <= fs.snaps.len(),
                        fs@.snaps.len() == fs.snaps.len(),
                        next <= 10000,
                        forall|a: int, b: int|
                            self.managed_snap_in(under@, a, b) && (a < i || (a == i && b < j))
                                ==> snap_index(self.prefix@, self.models()[a].snaps[b]) < next,
                        next > 0 ==> self.managed_snap_in(under@, wi, wj) && snap_index(
                            self.prefix@,
                            self.models()[wi].snaps[wj],
                        ) == next - 1,
                    decreases fs.snaps.len() - j,
                {
                    proof {
                        assert(fs@.snaps[j as int] == fs.snaps@[j as int]@);
                    }
                    match self.snap_number(fs.snaps[j].as_str()) {
                        Some(num) => {
                            if num + 1 > next {
                                next = num + 1;
                                proof {
                                    wi = i as int;
                                    wj = j as int;
                                }
                            }
                        },
                        None => {},
                    }
                    j = j + 1;
                }
            } else {
                proof {
                    assert(forall|b: int|
                        !(0 <= b < self.models()[i as int].snaps.len()) || !self.managed_snap_in(
                            under@,
                            i as int,
                            b,
                        ));
                }
            }
            i = i + 1;
        }
        next
    }

    /// A canonical snapshot name for `index` at the current local
    /// time.  An index below the four-digit ceiling is recoverable
    /// from the name: the name matches the convention and decodes back
    /// to exactly `index`.
    pub fn snap_name(&self, index: usize) -> (r: String)
        ensures
            exists|ts: Timestamp|
                #[trigger] ts.wf() && r@ == snap_name_spec(self.prefix@, index as nat, ts),
            index <= 9999 ==> snap_matches(self.prefix@, r@) && snap_index(self.prefix@, r@)
                == index,
    {
        let ts = now_timestamp();
        let r = render_snap_name(self.prefix.as_str(), index, ts);
        proof {
            if index <= 9999 {
                crate::names::lemma_snap_name_round_trip(self.prefix@, index as nat, ts);
            }
        }
        r
    }

    /// The recursive snapshot command for `fs` at a fresh canonical
    /// name of `index`: `zfs snapshot -r <fs>@<name>`.
    pub fn take_snapshot(&self, fs: &str, index: usize) -> (r: Cmd)
        ensures
            exists|ts: Timestamp|
                #[trigger] ts.wf() && r.is_zfs(
                    seq![
                        "snapshot"@,
                        "-r"@,
                        fs@ + seq!['@'] + snap_name_spec(self.prefix@, index as nat, ts),
                    ],
                ),
    {
        let name = self.snap_name(index);
        let ghost ts = choose|ts: Timestamp|
            #[trigger] ts.wf() && name@ == snap_name_spec(self.prefix@, index as nat, ts);
        let mut target = fs.to_owned();
        target.append("@");
        target.append(name.as_str());
        proof {
            reveal_strlit("@");
            assert(target@ =~= fs@ + seq!['@'] + snap_name_spec(self.prefix@, index as nat, ts));
        }
        snapshot_cmd(target.as_str())
    }
}

/// The one-shot snapshot path: allocate the next free index under
/// `filesystem` and build the recursive snapshot command for it.
pub fn snapshot(zfs: &Zfs, filesystem: &str) -> (r: Cmd)
    ensures
        exists|idx: nat, ts: Timestamp|
            {
                &&& ts.wf()
                &&& idx <= 10000
                &&& (forall|i: int, j: int|
                    zfs.managed_snap_in(filesystem@, i, j) ==> snap_index(
                        zfs.prefix@,
                        zfs.models()[i].snaps[j],
                    ) < idx)
                &&& (idx > 0 ==> exists|i: int, j: int|
                    zfs.managed_snap_in(filesystem@, i, j) && snap_index(
                        zfs.prefix@,
                        zfs.models()[i].snaps[j],
                    ) == idx - 1)
                &&& r.is_zfs(
                    seq![
                        "snapshot"@,
                        "-r"@,
                        filesystem@ + seq!['@'] + #[trigger] snap_name_spec(zfs.prefix@, idx, ts),
                    ],
                )
            },
{
    let next = zfs.next_under(filesystem);
    zfs.take_snapshot(filesystem, next)
}

} // verus!
