//! The replication engine: diff a source subtree against a destination
//! subtree and decide, per pair, which transfers bring the destination
//! in line.
//!
//! Everything here is a pure decision over one immutable inventory.
//! The plan names the volumes to create and the snapshot ranges to
//! send; the caller executes it with the commands of
//! [`crate::commands`], re-reading the inventory afterwards if it needs
//! the post-transfer state.

use vstd::prelude::*;
use vstd::string::StrSliceExecFns;
use vstd::string::StringExecFns;

use crate::commands::Cmd;
use crate::errors::Error;
use crate::inventory::FsModel;
use crate::inventory::Filesystem;
use crate::strutil::all_digits;
use crate::strutil::dec_val;
use crate::strutil::is_subtree_member;
use crate::strutil::parse_u64;
use crate::strutil::split2_spec;
use crate::strutil::split_once_at;
use crate::strutil::str_eq;
use crate::strutil::substr;
use crate::strutil::subtree_member;
use crate::strutil::vec_contains_str;
use crate::zfs::Zfs;

verus! {

/// One snapshot range to send.
#[derive(Debug, Clone)]
pub enum Transfer {
    /// A full, non-incremental stream up to `snap`.
    Full { snap: String },
    /// The delta between two snapshots of the same filesystem.
    Incremental { from: String, to: String },
}

#[verifier::ext_equal]
pub ghost enum TransferModel {
    Full { snap: Seq<char> },
    Incremental { from: Seq<char>, to: Seq<char> },
}

impl View for Transfer {
    type V = TransferModel;

    open spec fn view(&self) -> TransferModel {
        match self {
            Transfer::Full { snap } => TransferModel::Full { snap: snap@ },
            Transfer::Incremental { from, to } => TransferModel::Incremental {
                from: from@,
                to: to@,
            },
        }
    }
}

impl DeepView for Transfer {
    type V = TransferModel;

    open spec fn deep_view(&self) -> TransferModel {
        self.view()
    }
}

/// The incremental base of a transfer, if it has one.
pub open spec fn transfer_base(t: TransferModel) -> Option<Seq<char>> {
    match t {
        TransferModel::Full { snap } => None,
        TransferModel::Incremental { from, to } => Some(from),
    }
}

/// The snapshot a transfer runs up to.
pub open spec fn transfer_head(t: TransferModel) -> Seq<char> {
    match t {
        TransferModel::Full { snap } => snap,
        TransferModel::Incremental { from, to } => to,
    }
}

impl Transfer {
    /// The fully qualified snapshot this range runs up to:
    /// `<source>@<snapshot>`.
    pub fn target(&self, source: &str) -> (r: String)
        ensures
            r@ == source@ + seq!['@'] + transfer_head(self@),
    {
        let mut t = source.to_owned();
        t.append("@");
        match self {
            Transfer::Full { snap } => t.append(snap.as_str()),
            Transfer::Incremental { from, to } => t.append(to.as_str()),
        }
        proof {
            reveal_strlit("@");
            assert(t@ =~= source@ + seq!['@'] + transfer_head(self@));
        }
        t
    }

    /// The dry-run estimate command for exactly this range.
    pub fn estimate_cmd(&self, source: &str) -> (r: Cmd)
        ensures
            r.is_zfs(
                seq!["send"@, "-nP"@] + crate::commands::send_range_args(
                    transfer_base(self@),
                    source@ + seq!['@'] + transfer_head(self@),
                ),
            ),
    {
        let target = self.target(source);
        match self {
            Transfer::Full { snap } => crate::commands::estimate_cmd(None, target.as_str()),
            Transfer::Incremental { from, to } => crate::commands::estimate_cmd(
                Some(from),
                target.as_str(),
            ),
        }
    }

    /// The real send command for exactly this range.
    pub fn send_cmd(&self, source: &str) -> (r: Cmd)
        ensures
            r.is_zfs(
                seq!["send"@] + crate::commands::send_range_args(
                    transfer_base(self@),
                    source@ + seq!['@'] + transfer_head(self@),
                ),
            ),
    {
        let target = self.target(source);
        match self {
            Transfer::Full { snap } => crate::commands::send_cmd(None, target.as_str()),
            Transfer::Incremental { from, to } => crate::commands::send_cmd(
                Some(from),
                target.as_str(),
            ),
        }
    }
}

/// Model of the policy violations a reconciliation can meet.
pub ghost enum CloneErrModel {
    /// The destination's newest snapshot is not in the source history.
    Diverged { source: Seq<char>, dest: Seq<char> },
    /// The source has no snapshots to clone from.
    NoSource { source: Seq<char> },
}

pub open spec fn clone_err_matches(e: Error, m: CloneErrModel) -> bool {
    match m {
        CloneErrModel::Diverged { source, dest } => e matches Error::DivergedDestination {
            source: s,
            dest: d,
        } && s@ == source && d@ == dest,
        CloneErrModel::NoSource { source } => e matches Error::NoSourceSnapshots { source: s } && s@
            == source,
    }
}

/// The transfers that bring a destination with history `dest_snaps` in
/// line with `src`:
/// - a destination with snapshots must have its newest one somewhere
///   in the source history (else it has diverged); if it is the
///   source's newest too, nothing to do, otherwise one incremental
///   stream from it to the source's newest;
/// - an empty destination is seeded with a full stream of the source's
///   oldest snapshot and one incremental stream from there to the
///   newest, establishing a shared base for later reconciliations.
pub open spec fn reconcile_spec(
    src: FsModel,
    dest_name: Seq<char>,
    dest_snaps: Seq<Seq<char>>,
) -> Result<Seq<TransferModel>, CloneErrModel> {
    if dest_snaps.len() > 0 {
        if !src.snaps.contains(dest_snaps.last()) {
            Err(CloneErrModel::Diverged { source: src.name, dest: dest_name })
        } else if src.snaps.last() == dest_snaps.last() {
            Ok(Seq::empty())
        } else {
            Ok(
                seq![
                    TransferModel::Incremental { from: dest_snaps.last(), to: src.snaps.last() },
                ],
            )
        }
    } else {
        if src.snaps.len() == 0 {
            Err(CloneErrModel::NoSource { source: src.name })
        } else {
            Ok(
                seq![
                    TransferModel::Full { snap: src.snaps.first() },
                    TransferModel::Incremental { from: src.snaps.first(), to: src.snaps.last() },
                ],
            )
        }
    }
}

/// Decide the transfers for one source/destination pair.
pub fn reconcile(src: &Filesystem, dest_name: &str, dest_snaps: &Vec<String>) -> (r: Result<
    Vec<Transfer>,
    Error,
>)
    ensures
        match r {
            Ok(ts) => reconcile_spec(src@, dest_name@, dest_snaps.deep_view()) == Ok::<
                Seq<TransferModel>,
                CloneErrModel,
            >(ts.deep_view()),
            Err(e) => reconcile_spec(src@, dest_name@, dest_snaps.deep_view()) matches Err(m)
                && clone_err_matches(e, m),
        },
{
    let ghost dsnaps = dest_snaps.deep_view();
    if dest_snaps.len() > 0 {
        let dlast = &dest_snaps[dest_snaps.len() - 1];
        proof {
            assert(dsnaps.last() == dest_snaps@[dsnaps.len() - 1]@);
        }
        if !vec_contains_str(&src.snaps, dlast.as_str()) {
            return Err(
                Error::DivergedDestination {
                    source: src.name.clone(),
                    dest: dest_name.to_owned(),
                },
            );
        }
        proof {
            assert(src@.snaps.len() > 0) by {
                assert(src.snaps.deep_view().contains(dsnaps.last()));
                let k = choose|k: int|
                    0 <= k < src.snaps.deep_view().len() && src.snaps.deep_view()[k]
                        == dsnaps.last();
            }
        }
        let slast = &src.snaps[src.snaps.len() - 1];
        proof {
            assert(src@.snaps.last() == src.snaps@[src@.snaps.len() - 1]@);
        }
        if str_eq(slast.as_str(), dlast.as_str()) {
            let ts: Vec<Transfer> = Vec::new();
            proof {
                assert(ts.deep_view() =~= Seq::<TransferModel>::empty());
            }
            return Ok(ts);
        }
        let mut ts: Vec<Transfer> = Vec::new();
        ts.push(Transfer::Incremental { from: dlast.clone(), to: slast.clone() });
        proof {
            assert(ts.deep_view() =~= seq![
                TransferModel::Incremental { from: dsnaps.last(), to: src@.snaps.last() },
            ]);
        }
        Ok(ts)
    } else {
        if src.snaps.len() == 0 {
            return Err(Error::NoSourceSnapshots { source: src.name.clone() });
        }
        let first = &src.snaps[0];
        let last = &src.snaps[src.snaps.len() - 1];
        proof {
            assert(src@.snaps.first() == src.snaps@[0]@);
            assert(src@.snaps.last() == src.snaps@[src@.snaps.len() - 1]@);
        }
        let mut ts: Vec<Transfer> = Vec::new();
        ts.push(Transfer::Full { snap: first.clone() });
        ts.push(Transfer::Incremental { from: first.clone(), to: last.clone() });
        proof {
            assert(ts.deep_view() =~= seq![
                TransferModel::Full { snap: src@.snaps.first() },
                TransferModel::Incremental { from: src@.snaps.first(), to: src@.snaps.last() },
            ]);
        }
        Ok(ts)
    }
}

/// A destination already in sync needs no transfers: reconciling a
/// filesystem against its own history is a no-op.
pub proof fn lemma_reconcile_in_sync(src: FsModel, dest_name: Seq<char>)
    requires
        src.snaps.len() > 0,
    ensures
        reconcile_spec(src, dest_name, src.snaps) == Ok::<Seq<TransferModel>, CloneErrModel>(
            Seq::empty(),
        ),
{
    assert(src.snaps.contains(src.snaps.last())) by {
        assert(src.snaps[src.snaps.len() - 1] == src.snaps.last());
    }
}

/// Model of a dry-run estimate parse failure.
pub ghost enum EstimateErrModel {
    /// A line without two tab-separated fields.
    Malformed { line: Seq<char> },
    /// A `size` line whose second field is not an unsigned number.
    BadSize { line: Seq<char> },
}

pub open spec fn estimate_err_matches(e: Error, m: EstimateErrModel) -> bool {
    match m {
        EstimateErrModel::Malformed { line } => e matches Error::MalformedEstimateLine { line: l }
            && l@ == line,
        EstimateErrModel::BadSize { line } => e matches Error::BadEstimateSize { line: l } && l@
            == line,
    }
}

/// What the dry-run estimate output denotes, scanning from line `i`:
/// the byte count of the first line whose first tab-field is `size`,
/// or 0 when no such line exists (progress reporting degrades, the
/// transfer still proceeds).
pub open spec fn estimate_spec(lines: Seq<Seq<char>>, i: int) -> Result<nat, EstimateErrModel>
    decreases lines.len() - i,
{
    if i < 0 || i >= lines.len() {
        Ok(0)
    } else {
        let line = lines[i];
        match split2_spec(line, '\t') {
            None => Err(EstimateErrModel::Malformed { line }),
            Some(fields) => {
                if fields.0 == "size"@ {
                    let f1 = match split2_spec(fields.1, '\t') {
                        None => fields.1,
                        Some(g) => g.0,
                    };
                    if f1.len() > 0 && all_digits(f1) && dec_val(f1) <= u64::MAX {
                        Ok(dec_val(f1))
                    } else {
                        Err(EstimateErrModel::BadSize { line })
                    }
                } else {
                    estimate_spec(lines, i + 1)
                }
            },
        }
    }
}

/// Parse the output of the dry-run estimate command.
pub fn parse_estimate(lines: &Vec<String>) -> (r: Result<u64, Error>)
    ensures
        match r {
            Ok(v) => estimate_spec(lines.deep_view(), 0) == Ok::<nat, EstimateErrModel>(v as nat),
            Err(e) => estimate_spec(lines.deep_view(), 0) matches Err(m) && estimate_err_matches(
                e,
                m,
            ),
        },
{
    let ghost all = lines.deep_view();
    let mut i: usize = 0;
    while i < lines.len()
        invariant
            all == lines.deep_view(),
            all.len() == lines.len(),
            i <= lines.len(),
            estimate_spec(all, 0) == estimate_spec(all, i as int),
        decreases lines.len() - i,
    {
        let line = &lines[i];
        proof {
            assert(all[i as int] == line@);
        }
        match split_once_at(line.as_str(), '\t') {
            None => {
                return Err(Error::MalformedEstimateLine { line: line.clone() });
            },
            Some(fields) => {
                if str_eq(fields.0.as_str(), "size") {
                    let second = match split_once_at(fields.1.as_str(), '\t') {
                        None => fields.1,
                        Some(g) => g.0,
                    };
                    match parse_u64(second.as_str()) {
                        Some(v) => {
                            return Ok(v);
                        },
                        None => {
                            return Err(Error::BadEstimateSize { line: line.clone() });
                        },
                    }
                }
            },
        }
        i = i + 1;
    }
    Ok(0)
}

/// What one source/destination mapping needs: the destination volume
/// to create first, if it does not exist yet, and the transfers to
/// run, in order.
#[derive(Debug, Clone)]
pub struct CloneAction {
    /// The source filesystem's name.
    pub source: String,
    /// The destination filesystem's name (existing or to create).
    pub dest: String,
    /// The destination does not exist and must be created, copying
    /// the source's explicit properties, before any transfer.
    pub create: bool,
    /// The snapshot ranges to send, in order.
    pub transfers: Vec<Transfer>,
}

#[verifier::ext_equal]
pub ghost struct ActionModel {
    pub source: Seq<char>,
    pub dest: Seq<char>,
    pub create: bool,
    pub transfers: Seq<TransferModel>,
}

impl View for CloneAction {
    type V = ActionModel;

    open spec fn view(&self) -> ActionModel {
        ActionModel {
            source: self.source@,
            dest: self.dest@,
            create: self.create,
            transfers: self.transfers.deep_view(),
        }
    }
}

impl DeepView for CloneAction {
    type V = ActionModel;

    open spec fn deep_view(&self) -> ActionModel {
        self.view()
    }
}

/// The first filesystem at or after position `i` named `name`.
pub open spec fn find_first(fss: Seq<FsModel>, name: Seq<char>, i: int) -> Option<int>
    decreases fss.len() - i,
{
    if i < 0 || i >= fss.len() {
        None
    } else if fss[i].name == name {
        Some(i)
    } else {
        find_first(fss, name, i + 1)
    }
}

/// What `find_first` finds from the start: the least index bearing the
/// name, if any index does.
pub proof fn lemma_find_first(fss: Seq<FsModel>, name: Seq<char>, i: int)
    requires
        0 <= i <= fss.len(),
    ensures
        match find_first(fss, name, i) {
            Some(j) => i <= j < fss.len() && fss[j].name == name && forall|k: int|
                i <= k < j ==> fss[k].name != name,
            None => forall|k: int| i <= k < fss.len() ==> fss[k].name != name,
        },
    decreases fss.len() - i,
{
    if i < fss.len() && fss[i].name != name {
        lemma_find_first(fss, name, i + 1);
    }
}

/// The destination name for a source subtree member: the destination
/// root plus the member's path suffix relative to the source root.
pub open spec fn dest_name_for(f: FsModel, source: Seq<char>, dest: Seq<char>) -> Seq<char> {
    dest + f.name.skip(source.len() as int)
}

/// The action (or none) for one filesystem of the inventory: members
/// of the source subtree map to their destination counterpart, found
/// by name; a missing counterpart is planned as a creation plus a
/// seed.
pub open spec fn plan_step(fss: Seq<FsModel>, f: FsModel, source: Seq<char>, dest: Seq<char>) -> Result<
    Option<ActionModel>,
    CloneErrModel,
> {
    if !subtree_member(source, f.name) {
        Ok(None)
    } else {
        let dname = dest_name_for(f, source, dest);
        let dsnaps = match find_first(fss, dname, 0) {
            Some(di) => fss[di].snaps,
            None => Seq::empty(),
        };
        match reconcile_spec(f, dname, dsnaps) {
            Err(e) => Err(e),
            Ok(ts) => Ok(
                Some(
                    ActionModel {
                        source: f.name,
                        dest: dname,
                        create: find_first(fss, dname, 0) is None,
                        transfers: ts,
                    },
                ),
            ),
        }
    }
}

/// The whole clone plan over the first `upto` filesystems, in listing
/// order, stopping at the first policy violation.
pub open spec fn clone_plan_spec(
    fss: Seq<FsModel>,
    upto: int,
    source: Seq<char>,
    dest: Seq<char>,
) -> Result<Seq<ActionModel>, CloneErrModel>
    decreases upto,
{
    if upto <= 0 {
        Ok(Seq::empty())
    } else {
        match clone_plan_spec(fss, upto - 1, source, dest) {
            Err(e) => Err(e),
            Ok(acts) => match plan_step(fss, fss[upto - 1], source, dest) {
                Err(e) => Err(e),
                Ok(None) => Ok(acts),
                Ok(Some(a)) => Ok(acts.push(a)),
            },
        }
    }
}

/// A failed mapping decides the whole plan.
pub proof fn lemma_plan_err_persists(fss: Seq<FsModel>, i: int, source: Seq<char>, dest: Seq<char>)
    requires
        0 <= i <= fss.len(),
        clone_plan_spec(fss, i, source, dest) is Err,
    ensures
        clone_plan_spec(fss, fss.len() as int, source, dest) == clone_plan_spec(
            fss,
            i,
            source,
            dest,
        ),
    decreases fss.len() - i,
{
    if i < fss.len() {
        lemma_plan_err_persists(fss, i + 1, source, dest);
    }
}

impl Zfs {
    /// Diff the subtree under `source` against the subtree under
    /// `dest` and compute the whole clone plan: one action per source
    /// filesystem, in listing order, stopping at the first policy
    /// violation.  Pure; the caller creates volumes and runs
    /// transfers, action by action, in order.
    pub fn clone(&self, source: &str, dest: &str) -> (r: Result<Vec<CloneAction>, Error>)
        ensures
            match r {
                Ok(plan) => clone_plan_spec(
                    self.models(),
                    self.models().len() as int,
                    source@,
                    dest@,
                ) == Ok::<Seq<ActionModel>, CloneErrModel>(plan.deep_view()),
                Err(e) => clone_plan_spec(
                    self.models(),
                    self.models().len() as int,
                    source@,
                    dest@,
                ) matches Err(m) && clone_err_matches(e, m),
            },
    {
        let ghost fss = self.models();
        let empty_snaps: Vec<String> = Vec::new();
        let mut plan: Vec<CloneAction> = Vec::new();
        let mut i: usize = 0;
        proof {
            assert(plan.deep_view() =~= Seq::<ActionModel>::empty());
        }
        while i < self.filesystems.len()
            invariant
                fss == self.models(),
                fss.len() == self.filesystems.len(),
                empty_snaps.deep_view() == Seq::<Seq<char>>::empty(),
                i <= self.filesystems.len(),
                clone_plan_spec(fss, i as int, source@, dest@) == Ok::<
                    Seq<ActionModel>,
                    CloneErrModel,
                >(plan.deep_view()),
            decreases self.filesystems.len() - i,
        {
            let fs = &self.filesystems[i];
            proof {
                assert(fss[i as int] == self.filesystems@[i as int]@);
            }
            if is_subtree_member(source, fs.name.as_str()) {
                let su = source.unicode_len();
                let nn = fs.name.as_str().unicode_len();
                let suffix = substr(fs.name.as_str(), su, nn);
                let mut dname = dest.to_owned();
                dname.append(suffix.as_str());
                proof {
                    assert(dname@ =~= dest_name_for(fss[i as int], source@, dest@));
                }
                let found = self.find_filesystem(dname.as_str());
                proof {
                    lemma_find_first(fss, dname@, 0);
                    match found {
                        Some(fi) => {
                            match find_first(fss, dname@, 0) {
                                Some(j) => {
                                    assert(j == fi) by {
                                        if j < fi {
                                            assert(fss[j].name != dname@);
                                        }
                                        if fi < j {
                                            assert(fss[fi as int].name == dname@);
                                        }
                                    }
                                },
                                None => {
                                    assert(false);
                                },
                            }
                        },
                        None => {
                            assert(find_first(fss, dname@, 0) is None);
                        },
                    }
                }
                let step = match found {
                    Some(di) => {
                        let dfs = &self.filesystems[di];
                        proof {
                            assert(fss[di as int] == self.filesystems@[di as int]@);
                        }
                        reconcile(fs, dname.as_str(), &dfs.snaps)
                    },
                    None => reconcile(fs, dname.as_str(), &empty_snaps),
                };
                let ghost before = plan.deep_view();
                match step {
                    Ok(ts) => {
                        let action = CloneAction {
                            source: fs.name.clone(),
                            dest: dname,
                            create: found.is_none(),
                            transfers: ts,
                        };
                        let ghost am = action@;
                        plan.push(action);
                        proof {
                            assert(plan.deep_view() =~= before.push(am));
                            assert(plan_step(fss, fss[i as int], source@, dest@) == Ok::<
                                Option<ActionModel>,
                                CloneErrModel,
                            >(Some(am)));
                        }
                    },
                    Err(e) => {
                        proof {
                            assert(clone_plan_spec(fss, i + 1, source@, dest@) is Err);
                            lemma_plan_err_persists(fss, i + 1, source@, dest@);
                        }
                        return Err(e);
                    },
                }
            }
            i = i + 1;
        }
        Ok(plan)
    }
}

/// Re-running a clone against an unchanged, already-cloned pair of
/// subtrees plans no work: when every source member has a counterpart
/// with the very same history, every action is a no-op and nothing is
/// created.
pub proof fn lemma_clone_plan_idempotent(
    fss: Seq<FsModel>,
    upto: int,
    source: Seq<char>,
    dest: Seq<char>,
)
    requires
        0 <= upto <= fss.len(),
        forall|i: int|
            0 <= i < fss.len() && subtree_member(source, (#[trigger] fss[i]).name) ==> {
                let dname = dest_name_for(fss[i], source, dest);
                &&& find_first(fss, dname, 0) is Some
                &&& fss[find_first(fss, dname, 0)->0].snaps == fss[i].snaps
                &&& fss[i].snaps.len() > 0
            },
    ensures
        clone_plan_spec(fss, upto, source, dest) matches Ok(acts) && forall|k: int|
            0 <= k < acts.len() ==> (#[trigger] acts[k]).transfers.len() == 0 && !acts[k].create,
    decreases upto,
{
    if upto > 0 {
        lemma_clone_plan_idempotent(fss, upto - 1, source, dest);
        let f = fss[upto - 1];
        if subtree_member(source, f.name) {
            let dname = dest_name_for(f, source, dest);
            lemma_reconcile_in_sync(f, dname);
        }
    }
}

/// A plan never transfers into a destination that would not exist:
/// each action's `create` flag is set exactly when no filesystem of
/// the inventory bears the destination name, and a created
/// destination is always seeded from scratch, full stream first.
pub proof fn lemma_plan_creates_missing(
    fss: Seq<FsModel>,
    upto: int,
    source: Seq<char>,
    dest: Seq<char>,
)
    requires
        0 <= upto <= fss.len(),
        clone_plan_spec(fss, upto, source, dest) is Ok,
    ensures
        clone_plan_spec(fss, upto, source, dest) matches Ok(acts) && forall|k: int|
            0 <= k < acts.len() ==> {
                &&& ((#[trigger] acts[k]).create <==> find_first(fss, acts[k].dest, 0) is None)
                &&& (acts[k].create ==> acts[k].transfers.len() == 2 && acts[k].transfers[0] is Full)
            },
    decreases upto,
{
    if upto > 0 {
        lemma_plan_creates_missing(fss, upto - 1, source, dest);
    }
}

/// The four tab-separated fields of a property line: entity, property
/// name, value, source.  `None` unless there are exactly four.
pub open spec fn prop_fields(line: Seq<char>) -> Option<
    (Seq<char>, Seq<char>, Seq<char>, Seq<char>),
> {
    match split2_spec(line, '\t') {
        None => None,
        Some(p0) => match split2_spec(p0.1, '\t') {
            None => None,
            Some(p1) => match split2_spec(p1.1, '\t') {
                None => None,
                Some(p2) => if p2.1.contains('\t') {
                    None
                } else {
                    Some((p0.0, p1.0, p2.0, p2.1))
                },
            },
        },
    }
}

/// The property overrides a new destination volume copies from its
/// source: every `local` or `received` property, in listing order,
/// except the mount path (the replica must not auto-mount).
pub open spec fn props_spec(lines: Seq<Seq<char>>) -> Result<Seq<(Seq<char>, Seq<char>)>, Seq<char>>
    decreases lines.len(),
{
    if lines.len() == 0 {
        Ok(Seq::empty())
    } else {
        match props_spec(lines.drop_last()) {
            Err(e) => Err(e),
            Ok(ps) => match prop_fields(lines.last()) {
                None => Err(lines.last()),
                Some(f) => {
                    if f.1 == "mountpoint"@ {
                        Ok(ps)
                    } else if f.3 == "local"@ || f.3 == "received"@ {
                        Ok(ps.push((f.1, f.2)))
                    } else {
                        Ok(ps)
                    }
                },
            },
        }
    }
}

/// An early malformed property line decides the whole parse.
pub proof fn lemma_props_err_persists(lines: Seq<Seq<char>>, i: int)
    requires
        0 <= i <= lines.len(),
        props_spec(lines.take(i)) is Err,
    ensures
        props_spec(lines) == props_spec(lines.take(i)),
    decreases lines.len() - i,
{
    if i < lines.len() {
        assert(lines.take(i + 1).drop_last() =~= lines.take(i));
        lemma_props_err_persists(lines, i + 1);
    } else {
        assert(lines.take(i) =~= lines);
    }
}

/// Parse the property listing of a source volume into the overrides
/// to copy onto a fresh destination volume.
pub fn parse_properties(lines: &Vec<String>) -> (r: Result<Vec<(String, String)>, Error>)
    ensures
        match r {
            Ok(props) => props_spec(lines.deep_view()) == Ok::<
                Seq<(Seq<char>, Seq<char>)>,
                Seq<char>,
            >(props.deep_view()),
            Err(e) => props_spec(lines.deep_view()) matches Err(line)
                && e matches Error::MalformedPropertyLine { line: l } && l@ == line,
        },
{
    let ghost all = lines.deep_view();
    let mut props: Vec<(String, String)> = Vec::new();
    let mut i: usize = 0;
    proof {
        assert(all.take(0) =~= Seq::<Seq<char>>::empty());
        assert(props.deep_view() =~= Seq::<(Seq<char>, Seq<char>)>::empty());
    }
    while i < lines.len()
        invariant
            all == lines.deep_view(),
            all.len() == lines.len(),
            i <= lines.len(),
            props_spec(all.take(i as int)) == Ok::<Seq<(Seq<char>, Seq<char>)>, Seq<char>>(
                props.deep_view(),
            ),
        decreases lines.len() - i,
    {
        let line = &lines[i];
        proof {
            assert(all[i as int] == line@);
            assert(all.take(i + 1).drop_last() =~= all.take(i as int));
            assert(all.take(i + 1).last() == all[i as int]);
        }
        let malformed = Err(Error::MalformedPropertyLine { line: line.clone() });
        match split_once_at(line.as_str(), '\t') {
            None => {
                proof {
                    lemma_props_err_persists(all, i + 1);
                }
                return malformed;
            },
            Some(p0) => {
                match split_once_at(p0.1.as_str(), '\t') {
                    None => {
                        proof {
                            lemma_props_err_persists(all, i + 1);
                        }
                        return malformed;
                    },
                    Some(p1) => {
                        match split_once_at(p1.1.as_str(), '\t') {
                            None => {
                                proof {
                                    lemma_props_err_persists(all, i + 1);
                                }
                                return malformed;
                            },
                            Some(p2) => {
                                match split_once_at(p2.1.as_str(), '\t') {
                                    Some(_) => {
                                        proof {
                                            lemma_props_err_persists(all, i + 1);
                                        }
                                        return malformed;
                                    },
                                    None => {
                                        let ghost before = props.deep_view();
                                        if str_eq(p1.0.as_str(), "mountpoint") {
                                        } else if str_eq(p2.1.as_str(), "local") || str_eq(
                                            p2.1.as_str(),
                                            "received",
                                        ) {
                                            let ghost pushed = (p1.0@, p2.0@);
                                            props.push((p1.0, p2.0));
                                            proof {
                                                assert(props.deep_view() =~= before.push(pushed));
                                            }
                                        }
                                        proof {
                                            assert(props_spec(all.take(i + 1)) == Ok::<
                                                Seq<(Seq<char>, Seq<char>)>,
                                                Seq<char>,
                                            >(props.deep_view()));
                                        }
                                    },
                                }
                            },
                        }
                    },
                }
            },
        }
        i = i + 1;
    }
    proof {
        assert(all.take(lines.len() as int) =~= all);
    }
    Ok(props)
}

} // verus!

