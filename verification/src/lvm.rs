//! Logical-volume snapshots: parsing the record listing, picking a
//! fresh snapshot name, and the commands that create, mount and
//! release one.
//!
//! The record listing is a line of `KEY='value'` pairs; its scanner is
//! modelled character by character as [`lvm_scan`], and the executable
//! parser is proved to return exactly the completed pairs.

use vstd::prelude::*;
use vstd::string::StrSliceExecFns;
use vstd::string::StringExecFns;

use crate::commands::Cmd;
use crate::errors::Error;
use crate::names::Timestamp;
use crate::strutil::pad2_spec;
use crate::strutil::pad4_spec;
use crate::strutil::push_pad2;
use crate::strutil::push_pad4;
use crate::strutil::str_eq;
use crate::strutil::substr;
use crate::strutil::vec_contains_str;

verus! {

/// Scanner position inside one record line.
#[verifier::ext_equal]
pub ghost enum LvmState {
    /// Between pairs, skipping spaces.
    Sep,
    /// Inside a key, before `=`.
    Name { key: Seq<char> },
    /// Just after `=`, expecting an opening quote.
    BQuote { key: Seq<char> },
    /// Inside a quoted value.
    Value { key: Seq<char>, value: Seq<char> },
}

/// One scanner transition.  `None` when the character cannot appear
/// there (anything but a quote after `=`).
pub open spec fn lvm_step(
    st: LvmState,
    pairs: Seq<(Seq<char>, Seq<char>)>,
    c: char,
) -> Option<(LvmState, Seq<(Seq<char>, Seq<char>)>)> {
    match st {
        LvmState::Sep => {
            if c == ' ' {
                Some((LvmState::Sep, pairs))
            } else {
                Some((LvmState::Name { key: seq![c] }, pairs))
            }
        },
        LvmState::Name { key } => {
            if c == '=' {
                Some((LvmState::BQuote { key }, pairs))
            } else {
                Some((LvmState::Name { key: key.push(c) }, pairs))
            }
        },
        LvmState::BQuote { key } => {
            if c == '\'' {
                Some((LvmState::Value { key, value: Seq::empty() }, pairs))
            } else {
                None
            }
        },
        LvmState::Value { key, value } => {
            if c == '\'' {
                Some((LvmState::Sep, pairs.push((key, value))))
            } else {
                Some((LvmState::Value { key, value: value.push(c) }, pairs))
            }
        },
    }
}

/// The scanner run over a whole prefix of the line.
pub open spec fn lvm_scan(line: Seq<char>) -> Option<(LvmState, Seq<(Seq<char>, Seq<char>)>)>
    decreases line.len(),
{
    if line.len() == 0 {
        Some((LvmState::Sep, Seq::empty()))
    } else {
        match lvm_scan(line.drop_last()) {
            None => None,
            Some(sp) => lvm_step(sp.0, sp.1, line.last()),
        }
    }
}

/// The completed `KEY='value'` pairs of a record line, in order; an
/// unterminated trailing pair is dropped, exactly as the scanner
/// leaves it pending.
pub open spec fn lvm_pairs(line: Seq<char>) -> Option<Seq<(Seq<char>, Seq<char>)>> {
    match lvm_scan(line) {
        None => None,
        Some(sp) => Some(sp.1),
    }
}

/// A refused character decides the whole line.
pub proof fn lemma_lvm_scan_none_persists(line: Seq<char>, i: int)
    requires
        0 <= i <= line.len(),
        lvm_scan(line.take(i)) is None,
    ensures
        lvm_scan(line) is None,
    decreases line.len() - i,
{
    if i < line.len() {
        assert(line.take(i + 1).drop_last() =~= line.take(i));
        lemma_lvm_scan_none_persists(line, i + 1);
    } else {
        assert(line.take(i) =~= line);
    }
}

/// Exec-side scanner position; the accumulated text lives in the
/// ghost model.
enum ScanTag {
    Sep,
    Name,
    BQuote,
    Value,
}

/// Parse one record line into its completed pairs.
pub fn parse(line: &str) -> (r: Result<Vec<(String, String)>, Error>)
    ensures
        match r {
            Ok(ps) => lvm_pairs(line@) == Some(ps.deep_view()),
            Err(e) => {
                &&& lvm_pairs(line@) is None
                &&& e matches Error::MalformedRecordLine { line: l } && l@ == line@
            },
        },
{
    let n = line.unicode_len();
    let mut pairs: Vec<(String, String)> = Vec::new();
    let mut tag = ScanTag::Sep;
    // Start of the key currently being read (valid in `Name`).
    let mut ks: usize = 0;
    // The finished key (valid in `BQuote` and `Value`).
    let mut key = String::new();
    // Start of the value currently being read (valid in `Value`).
    let mut vs: usize = 0;
    let mut i: usize = 0;
    proof {
        assert(line@.take(0) =~= Seq::<char>::empty());
        assert(pairs.deep_view() =~= Seq::<(Seq<char>, Seq<char>)>::empty());
    }
    while i < n
        invariant
            n == line@.len(),
            i <= n,
            match tag {
                ScanTag::Sep => lvm_scan(line@.take(i as int)) == Some(
                    (LvmState::Sep, pairs.deep_view()),
                ),
                ScanTag::Name => ks <= i && lvm_scan(line@.take(i as int)) == Some(
                    (LvmState::Name { key: line@.subrange(ks as int, i as int) },
                    pairs.deep_view()),
                ),
                ScanTag::BQuote => lvm_scan(line@.take(i as int)) == Some(
                    (LvmState::BQuote { key: key@ }, pairs.deep_view()),
                ),
                ScanTag::Value => vs <= i && lvm_scan(line@.take(i as int)) == Some(
                    (LvmState::Value { key: key@, value: line@.subrange(vs as int, i as int) },
                    pairs.deep_view()),
                ),
            },
        decreases n - i,
    {
        let c = line.get_char(i);
        proof {
            assert(line@.take(i + 1).drop_last() =~= line@.take(i as int));
            assert(line@.take(i + 1).last() == line@[i as int]);
        }
        match tag {
            ScanTag::Sep => {
                if c != ' ' {
                    tag = ScanTag::Name;
                    ks = i;
                    proof {
                        assert(line@.subrange(i as int, i + 1) =~= seq![line@[i as int]]);
                    }
                }
            },
            ScanTag::Name => {
                if c == '=' {
                    key = substr(line, ks, i);
                    tag = ScanTag::BQuote;
                } else {
                    proof {
                        assert(line@.subrange(ks as int, i + 1) =~= line@.subrange(
                            ks as int,
                            i as int,
                        ).push(line@[i as int]));
                    }
                }
            },
            ScanTag::BQuote => {
                if c == '\'' {
                    tag = ScanTag::Value;
                    vs = i + 1;
                    proof {
                        assert(line@.subrange(i + 1, i + 1) =~= Seq::<char>::empty());
                    }
                } else {
                    proof {
                        assert(lvm_scan(line@.take(i + 1)) is None);
                        lemma_lvm_scan_none_persists(line@, i + 1);
                    }
                    return Err(Error::MalformedRecordLine { line: line.to_owned() });
                }
            },
            ScanTag::Value => {
                if c == '\'' {
                    let value = substr(line, vs, i);
                    let ghost before = pairs.deep_view();
                    pairs.push((key.clone(), value));
                    tag = ScanTag::Sep;
                    proof {
                        assert(pairs.deep_view() =~= before.push(
                            (key@, line@.subrange(vs as int, i as int)),
                        ));
                    }
                } else {
                    proof {
                        assert(line@.subrange(vs as int, i + 1) =~= line@.subrange(
                            vs as int,
                            i as int,
                        ).push(line@[i as int]));
                    }
                }
            },
        }
        i = i + 1;
    }
    proof {
        assert(line@.take(n as int) =~= line@);
    }
    Ok(pairs)
}

/// The value of the last pair with the given key, like repeated map
/// insertion would leave it.
pub open spec fn lookup_spec(pairs: Seq<(Seq<char>, Seq<char>)>, key: Seq<char>) -> Option<
    Seq<char>,
>
    decreases pairs.len(),
{
    if pairs.len() == 0 {
        None
    } else if pairs.last().0 == key {
        Some(pairs.last().1)
    } else {
        lookup_spec(pairs.drop_last(), key)
    }
}

/// Look a key up in a parsed record.
pub fn record_get(pairs: &Vec<(String, String)>, key: &str) -> (r: Option<String>)
    ensures
        match r {
            Some(v) => lookup_spec(pairs.deep_view(), key@) == Some(v@),
            None => lookup_spec(pairs.deep_view(), key@) is None,
        },
{
    let ghost pm = pairs.deep_view();
    let mut best: Option<usize> = None;
    let mut i: usize = 0;
    proof {
        assert(pm.take(0) =~= Seq::<(Seq<char>, Seq<char>)>::empty());
    }
    while i < pairs.len()
        invariant
            pm == pairs.deep_view(),
            pm.len() == pairs.len(),
            i <= pairs.len(),
            match best {
                None => lookup_spec(pm.take(i as int), key@) is None,
                Some(b) => b < i && lookup_spec(pm.take(i as int), key@) == Some(pm[b as int].1),
            },
        decreases pairs.len() - i,
    {
        proof {
            assert(pm[i as int] == pairs@[i as int]@);
            assert(pm.take(i + 1).drop_last() =~= pm.take(i as int));
            assert(pm.take(i + 1).last() == pm[i as int]);
        }
        if str_eq(pairs[i].0.as_str(), key) {
            best = Some(i);
        }
        i = i + 1;
    }
    proof {
        assert(pm.take(pairs.len() as int) =~= pm);
    }
    match best {
        Some(b) => Some(pairs[b].1.clone()),
        None => None,
    }
}

/// One logical volume with the snapshots that reference it as their
/// origin.
#[derive(Debug)]
pub struct Lvm {
    pub vg: String,
    pub lv: String,
    pub snaps: Vec<String>,
}

/// Model of the errors a record scan can raise.
pub ghost enum LvmErrModel {
    /// A line the record scanner refuses.
    Malformed { line: Seq<char> },
    /// Two records describe the requested volume itself.
    Duplicate,
    /// A snapshot record without a volume name.
    Nameless { line: Seq<char> },
}

pub open spec fn lvm_err_matches(e: Error, lv: Seq<char>, m: LvmErrModel) -> bool {
    match m {
        LvmErrModel::Malformed { line } => e matches Error::MalformedRecordLine { line: l } && l@
            == line,
        LvmErrModel::Duplicate => e matches Error::DuplicateRecord { name } && name@ == lv,
        LvmErrModel::Nameless { line } => e matches Error::MalformedRecordLine { line: l } && l@
            == line,
    }
}

/// How one listing line extends the scan: `(main seen, snapshots)`.
pub open spec fn lvm_classify(
    acc: (bool, Seq<Seq<char>>),
    line: Seq<char>,
    vg: Seq<char>,
    lv: Seq<char>,
) -> Result<(bool, Seq<Seq<char>>), LvmErrModel> {
    match lvm_pairs(line) {
        None => Err(LvmErrModel::Malformed { line }),
        Some(ps) => {
            if lookup_spec(ps, "LVM2_VG_NAME"@) != Some(vg) {
                Ok(acc)
            } else if lookup_spec(ps, "LVM2_LV_NAME"@) == Some(lv) && lookup_spec(
                ps,
                "LVM2_ORIGIN"@,
            ) == Some(Seq::<char>::empty()) {
                if acc.0 {
                    Err(LvmErrModel::Duplicate)
                } else {
                    Ok((true, acc.1))
                }
            } else if lookup_spec(ps, "LVM2_ORIGIN"@) == Some(lv) {
                match lookup_spec(ps, "LVM2_LV_NAME"@) {
                    None => Err(LvmErrModel::Nameless { line }),
                    Some(n) => Ok((acc.0, acc.1.push(n))),
                }
            } else {
                Ok(acc)
            }
        },
    }
}

/// The record scan over a whole listing.
pub open spec fn lvm_scan_spec(
    lines: Seq<Seq<char>>,
    vg: Seq<char>,
    lv: Seq<char>,
) -> Result<(bool, Seq<Seq<char>>), LvmErrModel>
    decreases lines.len(),
{
    if lines.len() == 0 {
        Ok((false, Seq::empty()))
    } else {
        match lvm_scan_spec(lines.drop_last(), vg, lv) {
            Err(e) => Err(e),
            Ok(acc) => lvm_classify(acc, lines.last(), vg, lv),
        }
    }
}

/// An early scan error decides the whole listing.
pub proof fn lemma_lvm_err_persists(lines: Seq<Seq<char>>, i: int, vg: Seq<char>, lv: Seq<char>)
    requires
        0 <= i <= lines.len(),
        lvm_scan_spec(lines.take(i), vg, lv) is Err,
    ensures
        lvm_scan_spec(lines, vg, lv) == lvm_scan_spec(lines.take(i), vg, lv),
    decreases lines.len() - i,
{
    if i < lines.len() {
        assert(lines.take(i + 1).drop_last() =~= lines.take(i));
        lemma_lvm_err_persists(lines, i + 1, vg, lv);
    } else {
        assert(lines.take(i) =~= lines);
    }
}

impl Lvm {
    /// Build the volume's view from a record listing: the one record
    /// describing `vg/lv` itself (no origin), and every snapshot
    /// record that names `lv` as its origin, in listing order.
    pub fn scan(vg: &str, lv: &str, lines: &Vec<String>) -> (r: Result<Lvm, Error>)
        ensures
            match r {
                Ok(l) => {
                    &&& l.vg@ == vg@
                    &&& l.lv@ == lv@
                    &&& lvm_scan_spec(lines.deep_view(), vg@, lv@) == Ok::<
                        (bool, Seq<Seq<char>>),
                        LvmErrModel,
                    >((true, l.snaps.deep_view()))
                },
                Err(e) => match lvm_scan_spec(lines.deep_view(), vg@, lv@) {
                    Err(m) => lvm_err_matches(e, lv@, m),
                    Ok(acc) => !acc.0 && (e matches Error::RecordNotFound { name } && name@ == lv@),
                },
            },
    {
        let ghost all = lines.deep_view();
        let mut have_main = false;
        let mut snaps: Vec<String> = Vec::new();
        let mut i: usize = 0;
        proof {
            assert(all.take(0) =~= Seq::<Seq<char>>::empty());
            assert(snaps.deep_view() =~= Seq::<Seq<char>>::empty());
        }
        while i < lines.len()
            invariant
                all == lines.deep_view(),
                all.len() == lines.len(),
                i <= lines.len(),
                lvm_scan_spec(all.take(i as int), vg@, lv@) == Ok::<
                    (bool, Seq<Seq<char>>),
                    LvmErrModel,
                >((have_main, snaps.deep_view())),
            decreases lines.len() - i,
        {
            let line = &lines[i];
            proof {
                assert(all[i as int] == line@);
                assert(all.take(i + 1).drop_last() =~= all.take(i as int));
                assert(all.take(i + 1).last() == all[i as int]);
            }
            let pairs = match parse(line.as_str()) {
                Ok(ps) => ps,
                Err(e) => {
                    proof {
                        lemma_lvm_err_persists(all, i + 1, vg@, lv@);
                    }
                    return Err(e);
                },
            };
            let vg_val = record_get(&pairs, "LVM2_VG_NAME");
            let matches_vg = match &vg_val {
                Some(v) => str_eq(v.as_str(), vg),
                None => false,
            };
            if matches_vg {
                let lv_val = record_get(&pairs, "LVM2_LV_NAME");
                let origin = record_get(&pairs, "LVM2_ORIGIN");
                let is_main = match (&lv_val, &origin) {
                    (Some(l), Some(o)) => str_eq(l.as_str(), lv) && o.as_str().unicode_len() == 0,
                    _ => false,
                };
                proof {
                    if let Some(ref o) = origin {
                        if o@.len() == 0 {
                            assert(o@ =~= Seq::<char>::empty());
                        }
                    }
                }
                if is_main {
                    if have_main {
                        proof {
                            lemma_lvm_err_persists(all, i + 1, vg@, lv@);
                        }
                        return Err(Error::DuplicateRecord { name: lv.to_owned() });
                    }
                    have_main = true;
                } else {
                    let is_snap = match &origin {
                        Some(o) => str_eq(o.as_str(), lv),
                        None => false,
                    };
                    if is_snap {
                        match lv_val {
                            Some(n) => {
                                let ghost before = snaps.deep_view();
                                snaps.push(n);
                                proof {
                                    assert(snaps.deep_view() =~= before.push(
                                        snaps@.last()@,
                                    ));
                                }
                            },
                            None => {
                                proof {
                                    lemma_lvm_err_persists(all, i + 1, vg@, lv@);
                                }
                                return Err(
                                    Error::MalformedRecordLine { line: line.clone() },
                                );
                            },
                        }
                    }
                }
            }
            i = i + 1;
        }
        proof {
            assert(all.take(lines.len() as int) =~= all);
        }
        if !have_main {
            return Err(Error::RecordNotFound { name: lv.to_owned() });
        }
        Ok(Lvm { vg: vg.to_owned(), lv: lv.to_owned(), snaps })
    }

    /// `lvcreate -s -n <name> <vg>/<lv>`: create a snapshot of this
    /// volume, and account for it in the snapshot list.
    pub fn create_snapshot(&mut self, name: &str) -> (r: Cmd)
        ensures
            r.program@ == "lvcreate"@,
            r.args.deep_view() == seq![
                "-s"@,
                "-n"@,
                name@,
                old(self).vg@ + seq!['/'] + old(self).lv@,
            ],
            final(self).vg == old(self).vg,
            final(self).lv == old(self).lv,
            final(self).snaps.deep_view() == old(self).snaps.deep_view().push(name@),
    {
        let mut origin = self.vg.clone();
        origin.append("/");
        origin.append(self.lv.as_str());
        proof {
            reveal_strlit("/");
            assert(origin@ =~= self.vg@ + seq!['/'] + self.lv@);
        }
        let mut args: Vec<String> = Vec::new();
        args.push("-s".to_owned());
        args.push("-n".to_owned());
        args.push(name.to_owned());
        args.push(origin);
        let ghost before = self.snaps.deep_view();
        self.snaps.push(name.to_owned());
        let r = Cmd { program: "lvcreate".to_owned(), args };
        proof {
            assert(r.args.deep_view() =~= seq![
                "-s"@,
                "-n"@,
                name@,
                old(self).vg@ + seq!['/'] + old(self).lv@,
            ]);
            assert(self.snaps.deep_view() =~= before.push(name@));
        }
        r
    }

    /// Record a snapshot mount-to-be: the fully qualified volume name
    /// and the target mountpoint, not yet mounted.
    pub fn mount_snapshot(&self, name: &str, mountpoint: &str) -> (m: SnapMount)
        ensures
            m.lvm_name@ == self.vg@ + seq!['/'] + name@,
            m.mountpoint@ == mountpoint@,
            !m.mounted,
    {
        let mut lvm_name = self.vg.clone();
        lvm_name.append("/");
        lvm_name.append(name);
        proof {
            reveal_strlit("/");
            assert(lvm_name@ =~= self.vg@ + seq!['/'] + name@);
        }
        SnapMount { lvm_name, mountpoint: mountpoint.to_owned(), mounted: false }
    }
}

/// Twenty-six to the `n`.
pub open spec fn pow26(n: nat) -> nat
    decreases n,
{
    if n == 0 {
        1
    } else {
        26 * pow26((n - 1) as nat)
    }
}

/// The lower-case letter with alphabet position `d`.
pub open spec fn letter_of(d: nat) -> char {
    (((97 + d) as u8) as char)
}

/// The base-26 letter rendering of `tmp`, zero-padded (with `a`) to
/// `digits` letters, most significant first.
pub open spec fn base26(tmp: nat, digits: nat) -> Seq<char>
    decreases digits,
{
    if digits == 0 {
        Seq::empty()
    } else {
        base26(tmp / 26, (digits - 1) as nat) + seq![letter_of(tmp % 26)]
    }
}

/// Append the letter with alphabet position `d`.
fn push_letter(out: &mut String, d: usize)
    requires
        d < 26,
    ensures
        final(out)@ == old(out)@ + seq![letter_of(d as nat)],
{
    let table = "abcdefghijklmnopqrstuvwxyz";
    proof {
        reveal_strlit("abcdefghijklmnopqrstuvwxyz");
    }
    let piece = table.substring_char(d, d + 1);
    proof {
        assert(piece@ =~= seq![letter_of(d as nat)]);
    }
    out.append(piece);
}

/// Append the base-26 rendering of `tmp` over `digits` letters.
fn push_base26(out: &mut String, tmp: u64, digits: u64)
    ensures
        final(out)@ == old(out)@ + base26(tmp as nat, digits as nat),
    decreases digits,
{
    if digits == 0 {
        proof {
            assert(out@ =~= old(out)@ + base26(tmp as nat, 0));
        }
        return ;
    }
    push_base26(out, tmp / 26, digits - 1);
    push_letter(out, (tmp % 26) as usize);
    proof {
        assert(out@ =~= old(out)@ + base26(tmp as nat, digits as nat));
    }
}

/// Generates candidate name suffixes: `a`–`z`, then `aa`–`zz`, and so
/// on, one more letter each time a width is used up.
#[derive(Debug)]
pub struct SuffixGen {
    pub suffix: u64,
    pub digits: u64,
    pub cap: u64,
}

impl SuffixGen {
    /// The counter is within the current width's room.
    pub open spec fn wf(self) -> bool {
        &&& 1 <= self.digits <= 13
        &&& self.cap == pow26(self.digits as nat)
        &&& self.suffix < self.cap
    }

    pub open spec fn position(self) -> (nat, nat) {
        (self.suffix as nat, self.digits as nat)
    }

    pub fn new() -> (g: SuffixGen)
        ensures
            g.wf(),
            g.position() == (0nat, 1nat),
    {
        let g = SuffixGen { suffix: 0, digits: 1, cap: 26 };
        proof {
            assert(pow26(1) == 26) by {
                assert(pow26(0) == 1);
            }
        }
        g
    }

    /// The next suffix in order.  `None` only at the very end of the
    /// widest supported width, far beyond any real snapshot count.
    pub fn next(&mut self) -> (r: Option<String>)
        requires
            old(self).wf(),
        ensures
            final(self).wf(),
            match r {
                Some(s) => {
                    &&& s@ == base26(old(self).suffix as nat, old(self).digits as nat)
                    &&& (old(self).suffix + 1 < old(self).cap ==> final(self).suffix == old(self).suffix + 1
                        && final(self).digits == old(self).digits)
                    &&& (old(self).suffix + 1 == old(self).cap ==> final(self).suffix == 0
                        && final(self).digits == old(self).digits + 1)
                },
                None => {
                    &&& old(self).digits == 13
                    &&& old(self).suffix + 1 == old(self).cap
                    &&& *final(self) == *old(self)
                },
            },
    {
        if self.suffix + 1 == self.cap && self.digits == 13 {
            return None;
        }
        let mut out = String::new();
        push_base26(&mut out, self.suffix, self.digits);
        proof {
            assert(out@ =~= Seq::<char>::empty() + base26(
                self.suffix as nat,
                self.digits as nat,
            ));
            assert(out@ =~= base26(self.suffix as nat, self.digits as nat));
        }
        if self.suffix + 1 < self.cap {
            self.suffix = self.suffix + 1;
        } else {
            proof {
                assert(self.digits <= 12);
                assert(pow26(0) == 1);
                assert(pow26(1) == 26);
                assert(pow26(2) == 676);
                assert(pow26(3) == 17576);
                assert(pow26(4) == 456976);
                assert(pow26(5) == 11881376);
                assert(pow26(6) == 308915776);
                assert(pow26(7) == 8031810176);
                assert(pow26(8) == 208827064576);
                assert(pow26(9) == 5429503678976);
                assert(pow26(10) == 141167095653376);
                assert(pow26(11) == 3670344486987776);
                assert(pow26(12) == 95428956661682176);
                assert(pow26(13) == 2481152873203736576);
            }
            self.suffix = 0;
            self.digits = self.digits + 1;
            self.cap = self.cap * 26;
        }
        Some(out)
    }
}

/// The date-based candidate base name: `<lv>-<yyyy>-<mm>-<dd>`.
pub open spec fn lvm_base(lv: Seq<char>, ts: Timestamp) -> Seq<char> {
    lv + seq!['-'] + pad4_spec(ts.year as nat) + seq!['-'] + pad2_spec(ts.month as nat)
        + seq!['-'] + pad2_spec(ts.day as nat)
}

impl Lvm {
    /// A snapshot name for the given date that is not already taken:
    /// the plain date name when free, else the date name with the
    /// first free generated letter suffix.  `None` only when every
    /// candidate the generator could offer was taken.
    pub fn new_name(&self, ts: Timestamp) -> (r: Option<String>)
        requires
            ts.wf(),
        ensures
            match r {
                Some(n) => {
                    &&& !self.snaps.deep_view().contains(n@)
                    &&& (n@ == lvm_base(self.lv@, ts) || exists|t: nat, dg: nat|
                        1 <= dg <= 13 && n@ == lvm_base(self.lv@, ts) + base26(t, dg))
                    &&& (!self.snaps.deep_view().contains(lvm_base(self.lv@, ts)) ==> n@
                        == lvm_base(self.lv@, ts))
                },
                None => self.snaps.deep_view().contains(lvm_base(self.lv@, ts)),
            },
    {
        let mut base = self.lv.clone();
        base.append("-");
        push_pad4(&mut base, ts.year);
        base.append("-");
        push_pad2(&mut base, ts.month);
        base.append("-");
        push_pad2(&mut base, ts.day);
        proof {
            reveal_strlit("-");
            assert(base@ =~= lvm_base(self.lv@, ts));
        }
        if !vec_contains_str(&self.snaps, base.as_str()) {
            return Some(base);
        }
        let mut g = SuffixGen::new();
        let mut k: usize = 0;
        let bound = self.snaps.len();
        while k < bound
            invariant
                g.wf(),
                base@ == lvm_base(self.lv@, ts),
                self.snaps.deep_view().contains(lvm_base(self.lv@, ts)),
            decreases bound - k,
        {
            let ghost t = g.suffix as nat;
            let ghost dg = g.digits as nat;
            let suffix = match g.next() {
                Some(s) => s,
                None => {
                    return None;
                },
            };
            let mut cand = base.clone();
            cand.append(suffix.as_str());
            proof {
                assert(cand@ =~= lvm_base(self.lv@, ts) + base26(t, dg));
            }
            if !vec_contains_str(&self.snaps, cand.as_str()) {
                proof {
                    assert(1 <= dg <= 13);
                    assert(cand@ == lvm_base(self.lv@, ts) + base26(t, dg));
                }
                return Some(cand);
            }
            k = k + 1;
        }
        None
    }
}

/// A snapshot being exposed at a mountpoint.  The caller runs the
/// activate, check and mount commands in order, records the mount,
/// and on release unmounts (when mounted) and deactivates.
#[derive(Debug)]
pub struct SnapMount {
    pub lvm_name: String,
    pub mountpoint: String,
    pub mounted: bool,
}

impl SnapMount {
    /// `lvchange -ay -K <vg/name>`: activate the snapshot volume.
    pub fn activate_cmd(&self) -> (r: Cmd)
        ensures
            r.program@ == "lvchange"@,
            r.args.deep_view() == seq!["-ay"@, "-K"@, self.lvm_name@],
    {
        let mut args: Vec<String> = Vec::new();
        args.push("-ay".to_owned());
        args.push("-K".to_owned());
        args.push(self.lvm_name.clone());
        let r = Cmd { program: "lvchange".to_owned(), args };
        proof {
            assert(r.args.deep_view() =~= seq!["-ay"@, "-K"@, self.lvm_name@]);
        }
        r
    }

    /// The device path `/dev/<vg/name>`.
    pub fn devname(&self) -> (r: String)
        ensures
            r@ == "/dev/"@ + self.lvm_name@,
    {
        let mut r = "/dev/".to_owned();
        r.append(self.lvm_name.as_str());
        r
    }

    /// `fsck -p <device>`: check the snapshot before exposing it.
    pub fn fsck_cmd(&self) -> (r: Cmd)
        ensures
            r.program@ == "fsck"@,
            r.args.deep_view() == seq!["-p"@, "/dev/"@ + self.lvm_name@],
    {
        let mut args: Vec<String> = Vec::new();
        args.push("-p".to_owned());
        args.push(self.devname());
        let r = Cmd { program: "fsck".to_owned(), args };
        proof {
            assert(r.args.deep_view() =~= seq!["-p"@, "/dev/"@ + self.lvm_name@]);
        }
        r
    }

    /// `mount -r <device> <mountpoint>`: expose the snapshot
    /// read-only.
    pub fn mount_cmd(&self) -> (r: Cmd)
        ensures
            r.program@ == "mount"@,
            r.args.deep_view() == seq!["-r"@, "/dev/"@ + self.lvm_name@, self.mountpoint@],
    {
        let mut args: Vec<String> = Vec::new();
        args.push("-r".to_owned());
        args.push(self.devname());
        args.push(self.mountpoint.clone());
        let r = Cmd { program: "mount".to_owned(), args };
        proof {
            assert(r.args.deep_view() =~= seq![
                "-r"@,
                "/dev/"@ + self.lvm_name@,
                self.mountpoint@,
            ]);
        }
        r
    }

    /// `umount <mountpoint>`: release the exposed snapshot.
    pub fn unmount_cmd(&self) -> (r: Cmd)
        ensures
            r.program@ == "umount"@,
            r.args.deep_view() == seq![self.mountpoint@],
    {
        let mut args: Vec<String> = Vec::new();
        args.push(self.mountpoint.clone());
        let r = Cmd { program: "umount".to_owned(), args };
        proof {
            assert(r.args.deep_view() =~= seq![self.mountpoint@]);
        }
        r
    }

    /// `lvchange -an -K <vg/name>`: deactivate the snapshot volume.
    pub fn deactivate_cmd(&self) -> (r: Cmd)
        ensures
            r.program@ == "lvchange"@,
            r.args.deep_view() == seq!["-an"@, "-K"@, self.lvm_name@],
    {
        let mut args: Vec<String> = Vec::new();
        args.push("-an".to_owned());
        args.push("-K".to_owned());
        args.push(self.lvm_name.clone());
        let r = Cmd { program: "lvchange".to_owned(), args };
        proof {
            assert(r.args.deep_view() =~= seq!["-an"@, "-K"@, self.lvm_name@]);
        }
        r
    }
}

} // verus!
