//! The inventory: every filesystem the backing tool reports, each with
//! its ordered snapshot history.
//!
//! The raw listing is line-oriented: two tab-separated fields, a
//! `name[@snapshot]` and a mountpoint.  A line without `@` starts a new
//! filesystem; a line with `@` appends a snapshot to the most recently
//! started one, after checking that the part before `@` names it.  The
//! whole parse is modelled by the recursive [`build_inventory`] spec
//! function, and [`parse_listing`] is proved to return exactly that.

use vstd::prelude::*;

use crate::errors::Error;
use crate::strutil::split2_spec;
use crate::strutil::split_once_at;
use crate::strutil::str_eq;

verus! {

/// Mathematical model of one filesystem entry.
#[verifier::ext_equal]
pub ghost struct FsModel {
    pub name: Seq<char>,
    pub snaps: Seq<Seq<char>>,
    pub mount: Seq<char>,
}

/// One storage volume: its name, its snapshot history in creation
/// order (oldest first, exactly as listed), and its mountpoint.
#[derive(Debug, Clone)]
pub struct Filesystem {
    pub name: String,
    pub snaps: Vec<String>,
    pub mount: String,
}

impl View for Filesystem {
    type V = FsModel;

    open spec fn view(&self) -> FsModel {
        FsModel { name: self.name@, snaps: self.snaps.deep_view(), mount: self.mount@ }
    }
}

impl DeepView for Filesystem {
    type V = FsModel;

    open spec fn deep_view(&self) -> FsModel {
        self.view()
    }
}

/// What one listing line means.
pub ghost enum LineModel {
    /// Not two tab-separated fields.
    Malformed,
    /// `name<TAB>mount`: starts a new filesystem.
    Volume { name: Seq<char>, mount: Seq<char> },
    /// `volume@snap<TAB>mount`: appends to the last filesystem.
    Snapshot { volume: Seq<char>, snap: Seq<char> },
}

pub open spec fn classify_line(line: Seq<char>) -> LineModel {
    match split2_spec(line, '\t') {
        None => LineModel::Malformed,
        Some(fields) => match split2_spec(fields.0, '@') {
            None => LineModel::Volume { name: fields.0, mount: fields.1 },
            Some(vs) => LineModel::Snapshot { volume: vs.0, snap: vs.1 },
        },
    }
}

/// Model of the errors a listing parse can raise.
pub ghost enum ListingErr {
    Malformed { line: Seq<char> },
    Orphan { snap: Seq<char> },
    Mismatch { volume: Seq<char>, snap: Seq<char> },
}

/// How one classified line extends the inventory built so far.
pub open spec fn listing_step(fss: Seq<FsModel>, line: Seq<char>) -> Result<Seq<FsModel>, ListingErr> {
    match classify_line(line) {
        LineModel::Malformed => Err(ListingErr::Malformed { line }),
        LineModel::Volume { name, mount } => Ok(
            fss.push(FsModel { name, snaps: Seq::empty(), mount }),
        ),
        LineModel::Snapshot { volume, snap } => {
            if fss.len() == 0 {
                Err(ListingErr::Orphan { snap })
            } else if fss.last().name != volume {
                Err(ListingErr::Mismatch { volume, snap })
            } else {
                Ok(
                    fss.update(
                        fss.len() - 1,
                        FsModel {
                            name: fss.last().name,
                            snaps: fss.last().snaps.push(snap),
                            mount: fss.last().mount,
                        },
                    ),
                )
            }
        },
    }
}

/// The inventory a listing denotes: a left fold of [`listing_step`]
/// over the lines, in order.
pub open spec fn build_inventory(lines: Seq<Seq<char>>) -> Result<Seq<FsModel>, ListingErr>
    decreases lines.len(),
{
    if lines.len() == 0 {
        Ok(Seq::empty())
    } else {
        match build_inventory(lines.drop_last()) {
            Err(e) => Err(e),
            Ok(fss) => listing_step(fss, lines.last()),
        }
    }
}

/// A failed prefix decides the whole listing: the fold returns the
/// first error it meets.
pub proof fn lemma_build_err_persists(lines: Seq<Seq<char>>, i: int)
    requires
        0 <= i <= lines.len(),
        build_inventory(lines.take(i)) is Err,
    ensures
        build_inventory(lines) == build_inventory(lines.take(i)),
    decreases lines.len() - i,
{
    if i < lines.len() {
        assert(lines.take(i + 1).drop_last() =~= lines.take(i));
        lemma_build_err_persists(lines, i + 1);
    } else {
        assert(lines.take(i) =~= lines);
    }
}

/// The filesystems of a listing that parses, `Seq::empty()` otherwise.
pub open spec fn inventory_ok(lines: Seq<Seq<char>>) -> Seq<FsModel> {
    match build_inventory(lines) {
        Ok(fss) => fss,
        Err(_) => Seq::empty(),
    }
}

/// Does the executable error `e` denote the model error `m`?
pub open spec fn listing_err_matches(e: Error, m: ListingErr) -> bool {
    match m {
        ListingErr::Malformed { line } => e matches Error::MalformedListingLine { line: l }
            && l@ == line,
        ListingErr::Orphan { snap } => e matches Error::SnapshotBeforeVolume { snapshot } && snapshot@
            == snap,
        ListingErr::Mismatch { volume, snap } => e matches Error::SnapshotVolumeMismatch {
            volume: v,
            snapshot: s,
        } && v@ == volume && s@ == snap,
    }
}

/// Builds the filesystem list incrementally while a listing is walked.
pub struct SnapBuilder {
    work: Vec<Filesystem>,
}

impl View for SnapBuilder {
    type V = Seq<FsModel>;

    closed spec fn view(&self) -> Seq<FsModel> {
        self.work.deep_view()
    }
}

impl SnapBuilder {
    pub fn new() -> (b: SnapBuilder)
        ensures
            b@ == Seq::<FsModel>::empty(),
    {
        let b = SnapBuilder { work: Vec::new() };
        proof {
            assert(b@ =~= Seq::<FsModel>::empty());
        }
        b
    }

    /// Start a new filesystem with an empty snapshot history.
    pub fn push_volume(&mut self, name: &str, mount: &str)
        ensures
            final(self)@ == old(self)@.push(
                FsModel { name: name@, snaps: Seq::empty(), mount: mount@ },
            ),
    {
        let fs = Filesystem { name: name.to_owned(), snaps: Vec::new(), mount: mount.to_owned() };
        proof {
            assert(fs@.snaps =~= Seq::<Seq<char>>::empty());
        }
        self.work.push(fs);
        proof {
            assert(self@ =~~= old(self)@.push(
                FsModel { name: name@, snaps: Seq::empty(), mount: mount@ },
            ));
        }
    }

    /// Append a snapshot to the most recently started filesystem, after
    /// checking that `volume` names it.  The two failure cases mirror
    /// the ordering contract of the backing tool.
    pub fn push_snap(&mut self, volume: &str, snap: &str) -> (r: Result<(), Error>)
        ensures
            match r {
                Ok(()) => {
                    &&& old(self)@.len() > 0
                    &&& old(self)@.last().name == volume@
                    &&& final(self)@ == old(self)@.update(
                        old(self)@.len() - 1,
                        FsModel {
                            name: old(self)@.last().name,
                            snaps: old(self)@.last().snaps.push(snap@),
                            mount: old(self)@.last().mount,
                        },
                    )
                },
                Err(e) => {
                    &&& final(self)@ == old(self)@
                    &&& if old(self)@.len() == 0 {
                        e matches Error::SnapshotBeforeVolume { snapshot } && snapshot@ == snap@
                    } else {
                        &&& old(self)@.last().name != volume@
                        &&& e matches Error::SnapshotVolumeMismatch { volume: v, snapshot: s }
                        &&& v@ == volume@
                        &&& s@ == snap@
                    }
                },
            },
    {
        let pos = self.work.len();
        if pos == 0 {
            return Err(Error::SnapshotBeforeVolume { snapshot: snap.to_owned() });
        }
        if !str_eq(self.work[pos - 1].name.as_str(), volume) {
            return Err(
                Error::SnapshotVolumeMismatch {
                    volume: volume.to_owned(),
                    snapshot: snap.to_owned(),
                },
            );
        }
        let mut fs = self.work.pop().unwrap();
        fs.snaps.push(snap.to_owned());
        self.work.push(fs);
        proof {
            assert(self@ =~~= old(self)@.update(
                old(self)@.len() - 1,
                FsModel {
                    name: old(self)@.last().name,
                    snaps: old(self)@.last().snaps.push(snap@),
                    mount: old(self)@.last().mount,
                },
            ));
        }
        Ok(())
    }

    /// Hand the finished filesystem list over.
    pub fn into_sets(self) -> (r: Vec<Filesystem>)
        ensures
            r.deep_view() == self@,
    {
        self.work
    }
}

/// Parse a full listing into filesystems, preserving line order.
pub fn parse_listing(lines: &Vec<String>) -> (r: Result<Vec<Filesystem>, Error>)
    ensures
        match r {
            Ok(fss) => build_inventory(lines.deep_view()) == Ok::<Seq<FsModel>, ListingErr>(
                fss.deep_view(),
            ),
            Err(e) => build_inventory(lines.deep_view()) matches Err(m) && listing_err_matches(e, m),
        },
{
    let ghost all = lines.deep_view();
    let mut builder = SnapBuilder::new();
    let mut i: usize = 0;
    proof {
        assert(all.take(0) =~= Seq::<Seq<char>>::empty());
    }
    while i < lines.len()
        invariant
            all == lines.deep_view(),
            i <= lines.len(),
            all.len() == lines.len(),
            build_inventory(all.take(i as int)) == Ok::<Seq<FsModel>, ListingErr>(builder@),
        decreases lines.len() - i,
    {
        let line = &lines[i];
        proof {
            assert(all[i as int] == line@);
            assert(all.take(i + 1).drop_last() =~= all.take(i as int));
            assert(all.take(i + 1).last() == all[i as int]);
        }
        match split_once_at(line.as_str(), '\t') {
            None => {
                proof {
                    assert(build_inventory(all.take(i + 1)) == Err::<Seq<FsModel>, ListingErr>(
                        ListingErr::Malformed { line: line@ },
                    ));
                    lemma_build_err_persists(all, i + 1);
                }
                return Err(Error::MalformedListingLine { line: line.clone() });
            },
            Some(fields) => {
                match split_once_at(fields.0.as_str(), '@') {
                    None => {
                        builder.push_volume(fields.0.as_str(), fields.1.as_str());
                        proof {
                            assert(build_inventory(all.take(i + 1)) == Ok::<
                                Seq<FsModel>,
                                ListingErr,
                            >(builder@));
                        }
                    },
                    Some(vs) => {
                        match builder.push_snap(vs.0.as_str(), vs.1.as_str()) {
                            Ok(()) => {
                                proof {
                                    assert(build_inventory(all.take(i + 1)) == Ok::<
                                        Seq<FsModel>,
                                        ListingErr,
                                    >(builder@));
                                }
                            },
                            Err(e) => {
                                proof {
                                    assert(build_inventory(all.take(i + 1)) is Err);
                                    lemma_build_err_persists(all, i + 1);
                                }
                                return Err(e);
                            },
                        }
                    },
                }
            },
        }
        i = i + 1;
    }
    proof {
        assert(all.take(lines.len() as int) =~= all);
    }
    Ok(builder.into_sets())
}

/// The volume names a listing declares, in line order.
pub open spec fn volume_names(lines: Seq<Seq<char>>) -> Seq<Seq<char>>
    decreases lines.len(),
{
    if lines.len() == 0 {
        Seq::empty()
    } else {
        let rest = volume_names(lines.drop_last());
        match classify_line(lines.last()) {
            LineModel::Volume { name, mount } => rest.push(name),
            _ => rest,
        }
    }
}

/// The volume named by a snapshot line (meaningful only when the line
/// classifies as a snapshot).
pub open spec fn snap_line_volume(line: Seq<char>) -> Seq<char> {
    match classify_line(line) {
        LineModel::Snapshot { volume, snap } => volume,
        _ => Seq::empty(),
    }
}

/// The snapshot named by a snapshot line.
pub open spec fn snap_line_snap(line: Seq<char>) -> Seq<char> {
    match classify_line(line) {
        LineModel::Snapshot { volume, snap } => snap,
        _ => Seq::empty(),
    }
}

/// Volume names of a prefix of the listing form a prefix of the volume
/// names of the whole listing.
pub proof fn lemma_volume_names_prefix(lines: Seq<Seq<char>>, i: int)
    requires
        0 <= i <= lines.len(),
    ensures
        volume_names(lines.take(i)).len() <= volume_names(lines).len(),
    decreases lines.len() - i,
{
    if i < lines.len() {
        lemma_volume_names_prefix(lines, i + 1);
        assert(lines.take(i + 1).drop_last() =~= lines.take(i));
        assert(lines.take(i + 1).last() == lines[i]);
    } else {
        assert(lines.take(i) =~= lines);
    }
}

/// A listing that parses yields its filesystems in line order, and
/// every snapshot line was attributed to the volume most recently
/// declared before it.
pub proof fn lemma_listing_order(lines: Seq<Seq<char>>)
    requires
        build_inventory(lines) is Ok,
    ensures
        inventory_ok(lines).map_values(|f: FsModel| f.name) == volume_names(lines),
        forall|i: int|
            0 <= i < lines.len() && classify_line(#[trigger] lines[i]) is Snapshot ==> {
                let vols = volume_names(lines.take(i));
                &&& vols.len() > 0
                &&& snap_line_volume(lines[i]) == vols.last()
                &&& inventory_ok(lines)[vols.len() - 1].snaps.contains(snap_line_snap(lines[i]))
            },
    decreases lines.len(),
{
    let fss = inventory_ok(lines);
    if lines.len() == 0 {
        assert(fss.map_values(|f: FsModel| f.name) =~= volume_names(lines));
    } else {
        let prev = lines.drop_last();
        let last = lines.last();
        lemma_listing_order(prev);
        let pfss = inventory_ok(prev);
        assert(pfss.map_values(|f: FsModel| f.name) == volume_names(prev));
        assert(pfss.len() == volume_names(prev).len()) by {
            assert(pfss.map_values(|f: FsModel| f.name).len() == pfss.len());
        }
        assert(forall|i: int| 0 <= i < prev.len() ==> prev[i] == lines[i]);
        assert(forall|i: int|
            0 <= i < prev.len() ==> lines.take(i) =~= prev.take(i)) by {
            assert(forall|i: int|
                0 <= i < prev.len() ==> lines.take(i) =~= prev.take(i));
        }
        match classify_line(last) {
            LineModel::Malformed => {
                assert(false);
            },
            LineModel::Volume { name, mount } => {
                assert(fss == pfss.push(FsModel { name, snaps: Seq::empty(), mount }));
                assert(fss.map_values(|f: FsModel| f.name) =~= volume_names(prev).push(name));
                assert(volume_names(lines) == volume_names(prev).push(name));
                assert forall|i: int|
                    0 <= i < lines.len() && classify_line(#[trigger] lines[i]) is Snapshot implies {
                    let vols = volume_names(lines.take(i));
                    &&& vols.len() > 0
                    &&& snap_line_volume(lines[i]) == vols.last()
                    &&& fss[vols.len() - 1].snaps.contains(snap_line_snap(lines[i]))
                } by {
                    assert(i < prev.len());
                    let vols = volume_names(prev.take(i));
                    lemma_volume_names_prefix(prev, i);
                    assert(vols.len() <= pfss.len());
                    assert(fss[vols.len() - 1] == pfss[vols.len() - 1]);
                    assert(lines.take(i) == prev.take(i));
                }
            },
            LineModel::Snapshot { volume, snap } => {
                assert(pfss.len() > 0 && pfss.last().name == volume);
                let updated = FsModel {
                    name: pfss.last().name,
                    snaps: pfss.last().snaps.push(snap),
                    mount: pfss.last().mount,
                };
                assert(fss == pfss.update(pfss.len() - 1, updated));
                assert(volume_names(lines) == volume_names(prev));
                assert(fss.map_values(|f: FsModel| f.name) =~= volume_names(prev));
                assert forall|i: int|
                    0 <= i < lines.len() && classify_line(#[trigger] lines[i]) is Snapshot implies {
                    let vols = volume_names(lines.take(i));
                    &&& vols.len() > 0
                    &&& snap_line_volume(lines[i]) == vols.last()
                    &&& fss[vols.len() - 1].snaps.contains(snap_line_snap(lines[i]))
                } by {
                    if i < prev.len() {
                        let vols = volume_names(prev.take(i));
                        lemma_volume_names_prefix(prev, i);
                        assert(vols.len() <= pfss.len());
                        assert(lines.take(i) == prev.take(i));
                        assert(pfss[vols.len() - 1].snaps.contains(snap_line_snap(lines[i])));
                        let s = snap_line_snap(lines[i]);
                        let j = choose|j: int|
                            0 <= j < pfss[vols.len() - 1].snaps.len() && #[trigger] pfss[vols.len()
                                - 1].snaps[j] == s;
                        if vols.len() - 1 == pfss.len() - 1 {
                            assert(fss[vols.len() - 1].snaps[j] == s);
                        } else {
                            assert(fss[vols.len() - 1] == pfss[vols.len() - 1]);
                        }
                        assert(fss[vols.len() - 1].snaps.contains(s));
                    } else {
                        assert(i == lines.len() - 1);
                        let vols = volume_names(lines.take(i));
                        assert(lines.take(i) =~= prev);
                        assert(vols == volume_names(prev));
                        assert(vols.len() == pfss.len());
                        assert(vols.last() == pfss.map_values(|f: FsModel| f.name).last());
                        assert(snap_line_volume(lines[i]) == vols.last());
                        assert(fss[vols.len() - 1] == updated);
                        assert(updated.snaps.last() == snap);
                        assert(updated.snaps.contains(snap)) by {
                            assert(updated.snaps[updated.snaps.len() - 1] == snap);
                        }
                    }
                }
            },
        }
    }
}

} // verus!
