//! The configuration model: which volumes are snapshotted, indexed,
//! replicated and backed up, under which conventions.
//!
//! Reading the YAML file happens outside the library; these are the
//! plain values it yields, and the decisions computed over them.

use vstd::prelude::*;
use vstd::string::StrSliceExecFns;
use vstd::string::StringExecFns;

use crate::commands::Cmd;
use crate::commands::snapshot_cmd;
use crate::errors::Error;
use crate::names::Timestamp;
use crate::strutil::pad2_spec;
use crate::strutil::pad4_spec;
use crate::strutil::push_pad2;
use crate::strutil::push_pad4;
use crate::strutil::str_eq;

verus! {

#[derive(Debug)]
pub struct Config {
    pub snap: SnapConfig,
    pub sure: SureConfig,
    pub restic: ResticConfig,
    pub clone: CloneConfig,
}

#[derive(Debug)]
pub struct SnapConfig {
    pub conventions: Vec<SnapConvention>,
    pub volumes: Vec<SnapVolume>,
}

#[derive(Debug)]
pub struct SnapConvention {
    pub name: String,
    pub last: Option<i32>,
    pub hourly: Option<i32>,
    pub daily: Option<i32>,
    pub weekly: Option<i32>,
    pub monthly: Option<i32>,
    pub yearly: Option<i32>,
}

#[derive(Debug)]
pub struct SnapVolume {
    pub name: String,
    pub convention: String,
    pub zfs: String,
}

#[derive(Debug)]
pub struct SureConfig {
    pub volumes: Vec<SureVolume>,
}

#[derive(Debug)]
pub struct SureVolume {
    pub name: String,
    pub zfs: String,
    pub bind: String,
    pub sure: String,
    pub convention: String,
}

#[derive(Debug)]
pub struct CloneConfig {
    pub volumes: Vec<CloneVolume>,
}

#[derive(Debug)]
pub struct CloneVolume {
    pub name: String,
    pub source: String,
    pub dest: String,
    pub skip: Option<bool>,
}

#[derive(Debug)]
pub struct ResticConfig {
    pub volumes: Vec<ResticVolume>,
}

#[derive(Debug)]
pub struct ResticVolume {
    pub name: String,
    pub zfs: String,
    pub bind: String,
    pub repo: String,
    pub passwordfile: String,
}

/// The minute-granularity time column of a time-based snapshot name:
/// `yyyymmddhhmm`.
pub open spec fn time12(ts: Timestamp) -> Seq<char> {
    pad4_spec(ts.year as nat) + pad2_spec(ts.month as nat) + pad2_spec(ts.day as nat) + pad2_spec(
        ts.hour as nat,
    ) + pad2_spec(ts.minute as nat)
}

/// The time-based snapshot name of a convention at a given time:
/// `<convention>-<yyyymmddhhmm>`.
pub open spec fn timed_name(convention: Seq<char>, ts: Timestamp) -> Seq<char> {
    convention + seq!['-'] + time12(ts)
}

impl SnapVolume {
    /// The recursive snapshot command for this volume under `conv` at
    /// time `ts`: `zfs snapshot -r <zfs>@<convention>-<yyyymmddhhmm>`.
    pub fn snapshot(&self, conv: &SnapConvention, ts: Timestamp) -> (r: Cmd)
        requires
            ts.wf(),
        ensures
            r.is_zfs(
                seq![
                    "snapshot"@,
                    "-r"@,
                    self.zfs@ + seq!['@'] + timed_name(conv.name@, ts),
                ],
            ),
    {
        let mut target = self.zfs.clone();
        target.append("@");
        target.append(conv.name.as_str());
        target.append("-");
        push_pad4(&mut target, ts.year);
        push_pad2(&mut target, ts.month);
        push_pad2(&mut target, ts.day);
        push_pad2(&mut target, ts.hour);
        push_pad2(&mut target, ts.minute);
        proof {
            reveal_strlit("@");
            reveal_strlit("-");
            assert(target@ =~= self.zfs@ + seq!['@'] + timed_name(conv.name@, ts));
        }
        snapshot_cmd(target.as_str())
    }
}

/// The first convention named `name`, if any.
pub open spec fn find_convention(convs: Seq<SnapConvention>, name: Seq<char>) -> Option<int>
    decreases convs.len(),
{
    if convs.len() == 0 {
        None
    } else {
        if convs[0].name@ == name {
            Some(0)
        } else {
            match find_convention(convs.drop_first(), name) {
                None => None,
                Some(i) => Some(i + 1),
            }
        }
    }
}

impl SnapConfig {
    /// The snapshot commands for every configured volume at time
    /// `ts`, in configuration order.  Every volume's convention is
    /// looked up before any command is handed out, so an unknown
    /// convention is reported before anything would run; the error
    /// names the first offending volume.
    pub fn snapshot(&self, ts: Timestamp) -> (r: Result<Vec<Cmd>, Error>)
        requires
            ts.wf(),
        ensures
            match r {
                Ok(cmds) => {
                    &&& cmds@.len() == self.volumes@.len()
                    &&& forall|i: int|
                        0 <= i < self.volumes@.len() ==> {
                            &&& find_convention(
                                self.conventions@,
                                (#[trigger] self.volumes@[i]).convention@,
                            ) is Some
                            &&& cmds@[i].is_zfs(
                                seq![
                                    "snapshot"@,
                                    "-r"@,
                                    self.volumes@[i].zfs@ + seq!['@'] + timed_name(
                                        self.conventions@[find_convention(
                                            self.conventions@,
                                            self.volumes@[i].convention@,
                                        )->0].name@,
                                        ts,
                                    ),
                                ],
                            )
                        }
                },
                Err(e) => {
                    &&& e matches Error::UnknownConvention { convention, volume }
                    &&& exists|i: int|
                        {
                            &&& 0 <= i < self.volumes@.len()
                            &&& find_convention(
                                self.conventions@,
                                (#[trigger] self.volumes@[i]).convention@,
                            ) is None
                            &&& convention@ == self.volumes@[i].convention@
                            &&& volume@ == self.volumes@[i].name@
                            &&& forall|k: int|
                                0 <= k < i ==> find_convention(
                                    self.conventions@,
                                    (#[trigger] self.volumes@[k]).convention@,
                                ) is Some
                        }
                },
            },
    {
        let mut cmds: Vec<Cmd> = Vec::new();
        let mut i: usize = 0;
        while i < self.volumes.len()
            invariant
                ts.wf(),
                i <= self.volumes@.len(),
                cmds@.len() == i,
                forall|k: int|
                    0 <= k < i ==> {
                        &&& find_convention(
                            self.conventions@,
                            (#[trigger] self.volumes@[k]).convention@,
                        ) is Some
                        &&& cmds@[k].is_zfs(
                            seq![
                                "snapshot"@,
                                "-r"@,
                                self.volumes@[k].zfs@ + seq!['@'] + timed_name(
                                    self.conventions@[find_convention(
                                        self.conventions@,
                                        self.volumes@[k].convention@,
                                    )->0].name@,
                                    ts,
                                ),
                            ],
                        )
                    },
            decreases self.volumes@.len() - i,
        {
            let v = &self.volumes[i];
            match self.lookup_convention(v.convention.as_str()) {
                Some(ci) => {
                    let cmd = v.snapshot(&self.conventions[ci], ts);
                    cmds.push(cmd);
                },
                None => {
                    return Err(
                        Error::UnknownConvention {
                            convention: v.convention.clone(),
                            volume: v.name.clone(),
                        },
                    );
                },
            }
            i = i + 1;
        }
        Ok(cmds)
    }

    /// Find the convention with the given name.
    fn lookup_convention(&self, name: &str) -> (r: Option<usize>)
        ensures
            match r {
                Some(ci) => {
                    &&& find_convention(self.conventions@, name@) == Some(ci as int)
                    &&& ci < self.conventions@.len()
                    &&& self.conventions@[ci as int].name@ == name@
                },
                None => find_convention(self.conventions@, name@) is None,
            },
    {
        let mut i: usize = 0;
        proof {
            assert(self.conventions@.skip(0) =~= self.conventions@);
        }
        while i < self.conventions.len()
            invariant
                i <= self.conventions@.len(),
                forall|k: int| 0 <= k < i ==> (#[trigger] self.conventions@[k]).name@ != name@,
                find_convention(self.conventions@, name@) == match find_convention(
                    self.conventions@.skip(i as int),
                    name@,
                ) {
                    None => None::<int>,
                    Some(j) => Some(j + i),
                },
            decreases self.conventions@.len() - i,
        {
            proof {
                assert(self.conventions@.skip(i as int)[0] == self.conventions@[i as int]);
                assert(self.conventions@.skip(i as int).drop_first() =~= self.conventions@.skip(
                    i + 1,
                ));
            }
            if str_eq(self.conventions[i].name.as_str(), name) {
                return Some(i);
            }
            i = i + 1;
        }
        proof {
            assert(self.conventions@.skip(self.conventions@.len() as int).len() == 0);
        }
        None
    }
}

impl ResticConfig {
    /// The bind directory `zfs` is backed up under.  An error when no
    /// volume names it, or when several do and disagree on the bind.
    pub fn find_bind(&self, zfs: &str) -> (r: Result<String, Error>)
        ensures
            match r {
                Ok(bind) => exists|i: int|
                    {
                        &&& 0 <= i < self.volumes@.len()
                        &&& (#[trigger] self.volumes@[i]).zfs@ == zfs@
                        &&& bind@ == self.volumes@[i].bind@
                        &&& forall|k: int|
                            0 <= k < self.volumes@.len() && (#[trigger] self.volumes@[k]).zfs@
                                == zfs@ ==> self.volumes@[k].bind@ == bind@
                    },
                Err(e) => match e {
                    Error::NoBindFound { name } => name@ == zfs@ && forall|k: int|
                        0 <= k < self.volumes@.len() ==> (#[trigger] self.volumes@[k]).zfs@ != zfs@,
                    Error::BindMismatch { name } => name@ == zfs@ && exists|a: int, b: int|
                        {
                            &&& 0 <= a < self.volumes@.len()
                            &&& 0 <= b < self.volumes@.len()
                            &&& (#[trigger] self.volumes@[a]).zfs@ == zfs@
                            &&& (#[trigger] self.volumes@[b]).zfs@ == zfs@
                            &&& self.volumes@[a].bind@ != self.volumes@[b].bind@
                        },
                    _ => false,
                },
            },
    {
        let mut first: Option<usize> = None;
        let mut i: usize = 0;
        while i < self.volumes.len()
            invariant
                i <= self.volumes@.len(),
                match first {
                    None => forall|k: int|
                        0 <= k < i ==> (#[trigger] self.volumes@[k]).zfs@ != zfs@,
                    Some(fi) => {
                        &&& fi < i
                        &&& self.volumes@[fi as int].zfs@ == zfs@
                        &&& forall|k: int|
                            0 <= k < i && (#[trigger] self.volumes@[k]).zfs@ == zfs@
                                ==> self.volumes@[k].bind@ == self.volumes@[fi as int].bind@
                    },
                },
            decreases self.volumes@.len() - i,
        {
            let v = &self.volumes[i];
            if str_eq(v.zfs.as_str(), zfs) {
                match first {
                    None => {
                        first = Some(i);
                    },
                    Some(fi) => {
                        if !str_eq(self.volumes[fi].bind.as_str(), v.bind.as_str()) {
                            return Err(Error::BindMismatch { name: zfs.to_owned() });
                        }
                    },
                }
            }
            i = i + 1;
        }
        match first {
            None => Err(Error::NoBindFound { name: zfs.to_owned() }),
            Some(fi) => Ok(self.volumes[fi].bind.clone()),
        }
    }
}

} // verus!
