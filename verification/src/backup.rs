//! Decision logic for the backup drivers: which snapshots still need
//! to be captured, and under which derived names and times.
//!
//! The drivers themselves shell out to external tools; everything they
//! decide — set differences against what a repository already holds,
//! pattern filters, capture limits — is computed here over plain
//! values.

use vstd::prelude::*;
use vstd::string::StrSliceExecFns;
use vstd::string::StringExecFns;

use crate::errors::Error;
use crate::names::is_snap_char;
use crate::strutil::all_digits;
use crate::strutil::has_prefix;
use crate::strutil::split2_spec;
use crate::strutil::split_once_at;
use crate::strutil::str_eq;
use crate::strutil::substr;
use crate::strutil::vec_contains_str;

verus! {

/// The snapshots of `snaps`, in order, whose prefixed archive name is
/// not in `present`.
pub open spec fn missing_spec(
    snaps: Seq<Seq<char>>,
    present: Seq<Seq<char>>,
    prefix: Seq<char>,
) -> Seq<Seq<char>>
    decreases snaps.len(),
{
    if snaps.len() == 0 {
        Seq::empty()
    } else {
        let rest = missing_spec(snaps.drop_last(), present, prefix);
        if present.contains(prefix + snaps.last()) {
            rest
        } else {
            rest.push(snaps.last())
        }
    }
}

/// The snapshots not yet present in an archive listing: snapshot
/// `s` is backed up under the archive name `<prefix><s>`.
pub fn missing_snapshots(snaps: &Vec<String>, present: &Vec<String>, prefix: &str) -> (r: Vec<
    String,
>)
    ensures
        r.deep_view() == missing_spec(snaps.deep_view(), present.deep_view(), prefix@),
{
    let ghost sm = snaps.deep_view();
    let mut r: Vec<String> = Vec::new();
    let mut i: usize = 0;
    proof {
        assert(sm.take(0) =~= Seq::<Seq<char>>::empty());
        assert(r.deep_view() =~= missing_spec(sm.take(0), present.deep_view(), prefix@));
    }
    while i < snaps.len()
        invariant
            sm == snaps.deep_view(),
            sm.len() == snaps.len(),
            i <= snaps.len(),
            r.deep_view() == missing_spec(sm.take(i as int), present.deep_view(), prefix@),
        decreases snaps.len() - i,
    {
        proof {
            assert(sm[i as int] == snaps@[i as int]@);
            assert(sm.take(i + 1).drop_last() =~= sm.take(i as int));
            assert(sm.take(i + 1).last() == sm[i as int]);
        }
        let mut key = prefix.to_owned();
        key.append(snaps[i].as_str());
        proof {
            assert(key@ =~= prefix@ + sm[i as int]);
        }
        let ghost before = r.deep_view();
        if !vec_contains_str(present, key.as_str()) {
            r.push(snaps[i].clone());
            proof {
                assert(r.deep_view() =~= before.push(sm[i as int]));
            }
        }
        i = i + 1;
    }
    proof {
        assert(sm.take(snaps.len() as int) =~= sm);
    }
    r
}

/// Does `name` follow the time-based convention under `prefix`:
/// the prefix, a dash, then a non-empty run of digits and dashes?
pub open spec fn sure_matches(prefix: Seq<char>, name: Seq<char>) -> bool {
    let p = prefix.len() as int;
    &&& name.len() >= p + 2
    &&& name.take(p) == prefix
    &&& name[p] == '-'
    &&& forall|i: int| p + 1 <= i < name.len() ==> is_snap_char(name[i])
}

pub fn sure_name_matches(prefix: &str, name: &str) -> (r: bool)
    ensures
        r == sure_matches(prefix@, name@),
{
    let p = prefix.unicode_len();
    let n = name.unicode_len();
    if !has_prefix(name, prefix) {
        return false;
    }
    if n - p < 2 {
        return false;
    }
    if name.get_char(p) != '-' {
        return false;
    }
    let mut j: usize = p + 1;
    while j < n
        invariant
            p == prefix@.len(),
            p + 2 <= n == name@.len(),
            p + 1 <= j <= n,
            forall|i: int| p + 1 <= i < j ==> is_snap_char(name@[i]),
        decreases n - j,
    {
        let c = name.get_char(j);
        let u = c as u32;
        if !(u == 45 || (48 <= u && u <= 57)) {
            proof {
                assert(c != '-') by {
                    assert('-' as u32 == 45);
                }
                assert(!is_snap_char(name@[j as int]));
            }
            return false;
        }
        j = j + 1;
    }
    true
}

/// The convention-matching snapshots that have no recorded integrity
/// version yet, in history order.
pub open spec fn sure_candidates_spec(
    snaps: Seq<Seq<char>>,
    versions: Seq<Seq<char>>,
    prefix: Seq<char>,
) -> Seq<Seq<char>>
    decreases snaps.len(),
{
    if snaps.len() == 0 {
        Seq::empty()
    } else {
        let rest = sure_candidates_spec(snaps.drop_last(), versions, prefix);
        if sure_matches(prefix, snaps.last()) && !versions.contains(snaps.last()) {
            rest.push(snaps.last())
        } else {
            rest
        }
    }
}

/// The snapshots whose integrity data still needs capturing: those
/// matching the convention under `prefix` and absent from the version
/// list.
pub fn sure_candidates(snaps: &Vec<String>, versions: &Vec<String>, prefix: &str) -> (r: Vec<
    String,
>)
    ensures
        r.deep_view() == sure_candidates_spec(snaps.deep_view(), versions.deep_view(), prefix@),
{
    let ghost sm = snaps.deep_view();
    let mut r: Vec<String> = Vec::new();
    let mut i: usize = 0;
    proof {
        assert(sm.take(0) =~= Seq::<Seq<char>>::empty());
        assert(r.deep_view() =~= sure_candidates_spec(sm.take(0), versions.deep_view(), prefix@));
    }
    while i < snaps.len()
        invariant
            sm == snaps.deep_view(),
            sm.len() == snaps.len(),
            i <= snaps.len(),
            r.deep_view() == sure_candidates_spec(sm.take(i as int), versions.deep_view(), prefix@),
        decreases snaps.len() - i,
    {
        proof {
            assert(sm[i as int] == snaps@[i as int]@);
            assert(sm.take(i + 1).drop_last() =~= sm.take(i as int));
            assert(sm.take(i + 1).last() == sm[i as int]);
        }
        let ghost before = r.deep_view();
        if sure_name_matches(prefix, snaps[i].as_str()) && !vec_contains_str(
            versions,
            snaps[i].as_str(),
        ) {
            r.push(snaps[i].clone());
            proof {
                assert(r.deep_view() =~= before.push(sm[i as int]));
            }
        }
        i = i + 1;
    }
    proof {
        assert(sm.take(snaps.len() as int) =~= sm);
    }
    r
}

/// A countdown on how many backups one run may still make.  `None`
/// never runs out.
#[derive(Debug, Clone, Copy)]
pub struct Limiter(pub Option<usize>);

impl Limiter {
    /// Is the budget used up?  Asking consumes one unit when any is
    /// left.
    pub fn exhausted(&mut self) -> (r: bool)
        ensures
            match old(self).0 {
                None => !r && final(self).0 is None,
                Some(n) => {
                    if n == 0 {
                        r && final(self).0 == Some(0usize)
                    } else {
                        !r && final(self).0 == Some((n - 1) as usize)
                    }
                },
            },
    {
        match self.0 {
            None => false,
            Some(0) => true,
            Some(n) => {
                self.0 = Some(n - 1);
                false
            },
        }
    }
}

/// The model of [`Limiter`]: how many more snapshots may be taken.
pub open spec fn limit_model(l: Limiter) -> Option<nat> {
    match l.0 {
        None => None,
        Some(n) => Some(n as nat),
    }
}

/// The snapshots a limited run dumps, scanning from `i`: already-seen
/// tags are skipped without consuming budget; the first unseen
/// snapshot met with an empty budget stops the run.
pub open spec fn backlog_spec(
    snaps: Seq<Seq<char>>,
    seen: Seq<Seq<char>>,
    limit: Option<nat>,
    i: int,
) -> Seq<Seq<char>>
    decreases snaps.len() - i,
{
    if i < 0 || i >= snaps.len() {
        Seq::empty()
    } else if seen.contains(snaps[i]) {
        backlog_spec(snaps, seen, limit, i + 1)
    } else {
        match limit {
            Some(n) => {
                if n == 0 {
                    Seq::empty()
                } else {
                    seq![snaps[i]] + backlog_spec(snaps, seen, Some((n - 1) as nat), i + 1)
                }
            },
            None => seq![snaps[i]] + backlog_spec(snaps, seen, None, i + 1),
        }
    }
}

/// The snapshots to dump: those whose tag the repository has not seen,
/// in history order, until the limiter runs out.  The spent limiter is
/// handed back for the next volume.
pub fn restic_backlog(snaps: &Vec<String>, seen: &Vec<String>, limit: Limiter) -> (r: (
    Vec<String>,
    Limiter,
))
    ensures
        r.0.deep_view() == backlog_spec(snaps.deep_view(), seen.deep_view(), limit_model(limit), 0),
{
    let ghost sm = snaps.deep_view();
    let ghost goal = backlog_spec(sm, seen.deep_view(), limit_model(limit), 0);
    let mut lim = limit;
    let mut r: Vec<String> = Vec::new();
    let mut i: usize = 0;
    while i < snaps.len()
        invariant
            sm == snaps.deep_view(),
            sm.len() == snaps.len(),
            i <= snaps.len(),
            goal == backlog_spec(snaps.deep_view(), seen.deep_view(), limit_model(limit), 0),
            goal == r.deep_view() + backlog_spec(sm, seen.deep_view(), limit_model(lim), i as int),
        decreases snaps.len() - i,
    {
        proof {
            assert(sm[i as int] == snaps@[i as int]@);
        }
        if !vec_contains_str(seen, snaps[i].as_str()) {
            if lim.exhausted() {
                proof {
                    assert(!seen.deep_view().contains(sm[i as int]));
                    assert(limit_model(lim) == Some(0nat));
                    assert(backlog_spec(sm, seen.deep_view(), limit_model(lim), i as int) =~= Seq::<
                        Seq<char>,
                    >::empty());
                    assert(goal =~= r.deep_view());
                }
                return (r, lim);
            }
            let ghost before = r.deep_view();
            r.push(snaps[i].clone());
            proof {
                assert(r.deep_view() =~= before.push(sm[i as int]));
                assert(goal =~= r.deep_view() + backlog_spec(
                    sm,
                    seen.deep_view(),
                    limit_model(lim),
                    i + 1,
                ));
            }
        }
        i = i + 1;
    }
    proof {
        assert(backlog_spec(sm, seen.deep_view(), limit_model(lim), snaps.len() as int) =~= Seq::<
            Seq<char>,
        >::empty());
        assert(goal =~= r.deep_view());
    }
    (r, lim)
}

/// The backup timestamp encoded in a time-based snapshot name.  A
/// name ending in twelve digits `yyyymmddhhmm` yields
/// `yyyy-mm-dd hh:mm:00`; anything else means the current time.
pub open spec fn fix_time_spec(snap: Seq<char>) -> Seq<char> {
    if snap.len() >= 12 && all_digits(snap.skip(snap.len() - 12)) {
        let t = snap.skip(snap.len() - 12);
        t.subrange(0, 4) + seq!['-'] + t.subrange(4, 6) + seq!['-'] + t.subrange(6, 8) + seq![' ']
            + t.subrange(8, 10) + seq![':'] + t.subrange(10, 12) + ":00"@
    } else {
        "now"@
    }
}

/// Derive the time a snapshot was taken from its name, for tools that
/// want an explicit record time.
pub fn fix_time(snap: &str) -> (r: String)
    ensures
        r@ == fix_time_spec(snap@),
{
    let n = snap.unicode_len();
    if n < 12 {
        return "now".to_owned();
    }
    let start = n - 12;
    let mut k: usize = 0;
    while k < 12
        invariant
            n == snap@.len(),
            n >= 12,
            start == n - 12,
            k <= 12,
            forall|i: int|
                0 <= i < k ==> crate::strutil::is_digit(#[trigger] snap@.skip(n - 12)[i]),
        decreases 12 - k,
    {
        let c = snap.get_char(start + k);
        let u = c as u32;
        if u < 48 || u > 57 {
            proof {
                assert(snap@.skip(n - 12)[k as int] == snap@[(start + k) as int]);
                assert(!all_digits(snap@.skip(n - 12)));
            }
            return "now".to_owned();
        }
        proof {
            assert(snap@.skip(n - 12)[k as int] == snap@[(start + k) as int]);
        }
        k = k + 1;
    }
    proof {
        assert(all_digits(snap@.skip(n - 12)));
    }
    let mut r = substr(snap, start, start + 4);
    r.append("-");
    let month = substr(snap, start + 4, start + 6);
    r.append(month.as_str());
    r.append("-");
    let day = substr(snap, start + 6, start + 8);
    r.append(day.as_str());
    r.append(" ");
    let hour = substr(snap, start + 8, start + 10);
    r.append(hour.as_str());
    r.append(":");
    let minute = substr(snap, start + 10, start + 12);
    r.append(minute.as_str());
    r.append(":00");
    proof {
        reveal_strlit("-");
        reveal_strlit(" ");
        reveal_strlit(":");
        reveal_strlit(":00");
        let t = snap@.skip(n - 12);
        assert(forall|i: int| 0 <= i < 12 ==> t[i] == snap@[n - 12 + i]);
        assert(r@ =~= fix_time_spec(snap@));
    }
    r
}

/// Split one configured authentication entry `KEY=value` at its first
/// equals sign.
pub fn parse_auth(entry: &str) -> (r: Result<(String, String), Error>)
    ensures
        match r {
            Ok(kv) => split2_spec(entry@, '=') == Some((kv.0@, kv.1@)),
            Err(e) => {
                &&& split2_spec(entry@, '=') is None
                &&& e matches Error::MalformedAuth { entry: en } && en@ == entry@
            },
        },
{
    match split_once_at(entry, '=') {
        Some(kv) => Ok(kv),
        None => Err(Error::MalformedAuth { entry: entry.to_owned() }),
    }
}

/// One captured backup record: the bind path it was made under and the
/// snapshot tag it carries.
#[derive(Debug, Clone, PartialEq, Eq)]
pub struct ResticSnap {
    pub path: String,
    pub tag: String,
}

impl View for ResticSnap {
    type V = (Seq<char>, Seq<char>);

    open spec fn view(&self) -> (Seq<char>, Seq<char>) {
        (self.path@, self.tag@)
    }
}

impl DeepView for ResticSnap {
    type V = (Seq<char>, Seq<char>);

    open spec fn deep_view(&self) -> (Seq<char>, Seq<char>) {
        self.view()
    }
}

/// What one repository snapshot record contributes: the paths it
/// covers and the tags it carries.
#[derive(Debug)]
pub struct SnapshotInfo {
    pub paths: Vec<String>,
    pub tags: Option<Vec<String>>,
}

/// Model of one repository snapshot record.
pub ghost struct SnapshotInfoModel {
    pub paths: Seq<Seq<char>>,
    pub tags: Option<Seq<Seq<char>>>,
}

impl View for SnapshotInfo {
    type V = SnapshotInfoModel;

    open spec fn view(&self) -> SnapshotInfoModel {
        SnapshotInfoModel { paths: self.paths.deep_view(), tags: self.tags.deep_view() }
    }
}

impl DeepView for SnapshotInfo {
    type V = SnapshotInfoModel;

    open spec fn deep_view(&self) -> SnapshotInfoModel {
        self.view()
    }
}

/// `(path, tag)` for every tag, in order.
pub open spec fn tag_pairs(path: Seq<char>, tags: Seq<Seq<char>>) -> Seq<(Seq<char>, Seq<char>)>
    decreases tags.len(),
{
    if tags.len() == 0 {
        Seq::empty()
    } else {
        tag_pairs(path, tags.drop_last()).push((path, tags.last()))
    }
}

/// `(path, tag)` for every path and tag combination, paths outermost.
pub open spec fn path_pairs(paths: Seq<Seq<char>>, tags: Seq<Seq<char>>) -> Seq<
    (Seq<char>, Seq<char>),
>
    decreases paths.len(),
{
    if paths.len() == 0 {
        Seq::empty()
    } else {
        path_pairs(paths.drop_last(), tags) + tag_pairs(paths.last(), tags)
    }
}

/// What one record contributes; a record without tags contributes
/// nothing.
pub open spec fn info_pairs(m: SnapshotInfoModel) -> Seq<(Seq<char>, Seq<char>)> {
    match m.tags {
        None => Seq::empty(),
        Some(ts) => path_pairs(m.paths, ts),
    }
}

/// Every `(path, tag)` pair of a record listing, in listing order.
pub open spec fn all_pairs(infos: Seq<SnapshotInfoModel>) -> Seq<(Seq<char>, Seq<char>)>
    decreases infos.len(),
{
    if infos.len() == 0 {
        Seq::empty()
    } else {
        all_pairs(infos.drop_last()) + info_pairs(infos.last())
    }
}

impl crate::config::ResticConfig {
    /// Flatten fetched repository records into the `(path, tag)`
    /// pairs they cover, in record order.
    pub fn get_snaps(fetched: &Vec<SnapshotInfo>) -> (r: Vec<ResticSnap>)
        ensures
            r.deep_view() == all_pairs(fetched.deep_view()),
    {
        let ghost infos = fetched.deep_view();
        let mut out: Vec<ResticSnap> = Vec::new();
        let mut i: usize = 0;
        proof {
            assert(infos.take(0) =~= Seq::<SnapshotInfoModel>::empty());
            assert(out.deep_view() =~= all_pairs(infos.take(0)));
        }
        while i < fetched.len()
            invariant
                infos == fetched.deep_view(),
                infos.len() == fetched.len(),
                i <= fetched.len(),
                out.deep_view() == all_pairs(infos.take(i as int)),
            decreases fetched.len() - i,
        {
            let info = &fetched[i];
            proof {
                assert(infos[i as int] == fetched@[i as int]@);
                assert(infos.take(i + 1).drop_last() =~= infos.take(i as int));
                assert(infos.take(i + 1).last() == infos[i as int]);
            }
            match &info.tags {
                None => {
                    proof {
                        assert(out.deep_view() =~= all_pairs(infos.take(i + 1)));
                    }
                },
                Some(tags) => {
                    let ghost tm = tags.deep_view();
                    let ghost pm = info.paths.deep_view();
                    let ghost base = out.deep_view();
                    let mut j: usize = 0;
                    proof {
                        assert(pm.take(0) =~= Seq::<Seq<char>>::empty());
                        assert(out.deep_view() =~= base + path_pairs(pm.take(0), tm));
                    }
                    while j < info.paths.len()
                        invariant
                            tm == tags.deep_view(),
                            pm == info.paths.deep_view(),
                            pm.len() == info.paths.len(),
                            tm.len() == tags.len(),
                            j <= info.paths.len(),
                            out.deep_view() == base + path_pairs(pm.take(j as int), tm),
                        decreases info.paths.len() - j,
                    {
                        proof {
                            assert(pm[j as int] == info.paths@[j as int]@);
                            assert(pm.take(j + 1).drop_last() =~= pm.take(j as int));
                            assert(pm.take(j + 1).last() == pm[j as int]);
                        }
                        let ghost mid = out.deep_view();
                        let mut k: usize = 0;
                        proof {
                            assert(tm.take(0) =~= Seq::<Seq<char>>::empty());
                            assert(tag_pairs(pm[j as int], tm.take(0)) =~= Seq::<
                                (Seq<char>, Seq<char>),
                            >::empty());
                            assert(out.deep_view() =~= mid + tag_pairs(pm[j as int], tm.take(0)));
                        }
                        while k < tags.len()
                            invariant
                                tm == tags.deep_view(),
                                pm == info.paths.deep_view(),
                                tm.len() == tags.len(),
                                j < pm.len(),
                                pm[j as int] == info.paths@[j as int]@,
                                k <= tags.len(),
                                out.deep_view() == mid + tag_pairs(pm[j as int], tm.take(k as int)),
                            decreases tags.len() - k,
                        {
                            proof {
                                assert(tm[k as int] == tags@[k as int]@);
                                assert(tm.take(k + 1).drop_last() =~= tm.take(k as int));
                                assert(tm.take(k + 1).last() == tm[k as int]);
                            }
                            let ghost before = out.deep_view();
                            out.push(
                                ResticSnap { path: info.paths[j].clone(), tag: tags[k].clone() },
                            );
                            proof {
                                assert(out.deep_view() =~= before.push(
                                    (pm[j as int], tm[k as int]),
                                ));
                            }
                            k = k + 1;
                        }
                        proof {
                            assert(tm.take(tags.len() as int) =~= tm);
                            assert(out.deep_view() =~= base + path_pairs(pm.take(j + 1), tm));
                        }
                        j = j + 1;
                    }
                    proof {
                        assert(pm.take(info.paths.len() as int) =~= pm);
                        assert(out.deep_view() =~= all_pairs(infos.take(i + 1)));
                    }
                },
            }
            i = i + 1;
        }
        proof {
            assert(infos.take(fetched.len() as int) =~= infos);
        }
        out
    }
}

/// Does the record list hold the pair `(path, tag)`?
pub fn restic_contains(records: &Vec<ResticSnap>, path: &str, tag: &str) -> (r: bool)
    ensures
        r == records.deep_view().contains((path@, tag@)),
{
    let mut i: usize = 0;
    while i < records.len()
        invariant
            i <= records@.len(),
            forall|k: int| 0 <= k < i ==> records.deep_view()[k] != (path@, tag@),
        decreases records@.len() - i,
    {
        proof {
            assert(records.deep_view()[i as int] == records@[i as int]@);
        }
        if str_eq(records[i].path.as_str(), path) && str_eq(records[i].tag.as_str(), tag) {
            proof {
                assert(records.deep_view().contains((path@, tag@))) by {
                    assert(records.deep_view()[i as int] == (path@, tag@));
                }
            }
            return true;
        }
        i = i + 1;
    }
    proof {
        if records.deep_view().contains((path@, tag@)) {
            let k = choose|k: int|
                0 <= k < records.deep_view().len() && records.deep_view()[k] == (path@, tag@);
            assert(false);
        }
    }
    false
}

/// The snapshots of a filesystem that no captured record covers under
/// `bind`, in history order, as deletion candidates.
pub open spec fn restic_prune_spec(
    snaps: Seq<Seq<char>>,
    records: Seq<(Seq<char>, Seq<char>)>,
    bind: Seq<char>,
) -> Seq<Seq<char>>
    decreases snaps.len(),
{
    if snaps.len() == 0 {
        Seq::empty()
    } else {
        let rest = restic_prune_spec(snaps.drop_last(), records, bind);
        if records.contains((bind, snaps.last())) {
            rest
        } else {
            rest.push(snaps.last())
        }
    }
}

/// The snapshots of one volume that are safe to prune: those not
/// present in any captured record under the volume's bind path.
pub fn restic_prune_candidates(snaps: &Vec<String>, records: &Vec<ResticSnap>, bind: &str) -> (r:
    Vec<String>)
    ensures
        r.deep_view() == restic_prune_spec(snaps.deep_view(), records.deep_view(), bind@),
{
    let ghost sm = snaps.deep_view();
    let mut r: Vec<String> = Vec::new();
    let mut i: usize = 0;
    proof {
        assert(sm.take(0) =~= Seq::<Seq<char>>::empty());
        assert(r.deep_view() =~= restic_prune_spec(sm.take(0), records.deep_view(), bind@));
    }
    while i < snaps.len()
        invariant
            sm == snaps.deep_view(),
            sm.len() == snaps.len(),
            i <= snaps.len(),
            r.deep_view() == restic_prune_spec(sm.take(i as int), records.deep_view(), bind@),
        decreases snaps.len() - i,
    {
        proof {
            assert(sm[i as int] == snaps@[i as int]@);
            assert(sm.take(i + 1).drop_last() =~= sm.take(i as int));
            assert(sm.take(i + 1).last() == sm[i as int]);
        }
        let ghost before = r.deep_view();
        if !restic_contains(records, bind, snaps[i].as_str()) {
            r.push(snaps[i].clone());
            proof {
                assert(r.deep_view() =~= before.push(sm[i as int]));
            }
        }
        i = i + 1;
    }
    proof {
        assert(sm.take(snaps.len() as int) =~= sm);
    }
    r
}

} // verus!
