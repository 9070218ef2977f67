//! The exact command lines the engine asks its caller to run.
//!
//! The engine never spawns a process itself; it hands back a program
//! name with its argument list, and the surrounding binary executes it.
//! Each builder's contract pins the full argument vector, so the shapes
//! the backing tool requires are verified rather than assembled ad hoc
//! at every call site.

use vstd::prelude::*;
use vstd::string::StringExecFns;

use crate::errors::Error;
use crate::errors::Stage;

verus! {

/// A command to execute: a program and its arguments, in order.
#[derive(Debug, Clone)]
pub struct Cmd {
    pub program: String,
    pub args: Vec<String>,
}

impl Cmd {
    pub open spec fn is_zfs(self, args: Seq<Seq<char>>) -> bool {
        self.program@ == "zfs"@ && self.args.deep_view() == args
    }
}

/// `zfs list -H -t all -o name,mountpoint`: every entity with name and
/// mountpoint, machine-readable.
pub fn list_cmd() -> (r: Cmd)
    ensures
        r.is_zfs(seq!["list"@, "-H"@, "-t"@, "all"@, "-o"@, "name,mountpoint"@]),
{
    let mut args: Vec<String> = Vec::new();
    args.push("list".to_owned());
    args.push("-H".to_owned());
    args.push("-t".to_owned());
    args.push("all".to_owned());
    args.push("-o".to_owned());
    args.push("name,mountpoint".to_owned());
    let r = Cmd { program: "zfs".to_owned(), args };
    proof {
        assert(r.args.deep_view() =~= seq!["list"@, "-H"@, "-t"@, "all"@, "-o"@, "name,mountpoint"@]);
    }
    r
}

/// `zfs snapshot -r <target>`: recursive snapshot creation at a fully
/// qualified `volume@name`.
pub fn snapshot_cmd(target: &str) -> (r: Cmd)
    ensures
        r.is_zfs(seq!["snapshot"@, "-r"@, target@]),
{
    let mut args: Vec<String> = Vec::new();
    args.push("snapshot".to_owned());
    args.push("-r".to_owned());
    args.push(target.to_owned());
    let r = Cmd { program: "zfs".to_owned(), args };
    proof {
        assert(r.args.deep_view() =~= seq!["snapshot"@, "-r"@, target@]);
    }
    r
}

/// `zfs destroy <target>`: destroy one fully qualified `volume@name`.
pub fn destroy_cmd(target: &str) -> (r: Cmd)
    ensures
        r.is_zfs(seq!["destroy"@, target@]),
{
    let mut args: Vec<String> = Vec::new();
    args.push("destroy".to_owned());
    args.push(target.to_owned());
    let r = Cmd { program: "zfs".to_owned(), args };
    proof {
        assert(r.args.deep_view() =~= seq!["destroy"@, target@]);
    }
    r
}

/// `zfs get -Hp all <name>`: every property of one entity, one line
/// each, machine-readable.
pub fn get_props_cmd(name: &str) -> (r: Cmd)
    ensures
        r.is_zfs(seq!["get"@, "-Hp"@, "all"@, name@]),
{
    let mut args: Vec<String> = Vec::new();
    args.push("get".to_owned());
    args.push("-Hp".to_owned());
    args.push("all".to_owned());
    args.push(name.to_owned());
    let r = Cmd { program: "zfs".to_owned(), args };
    proof {
        assert(r.args.deep_view() =~= seq!["get"@, "-Hp"@, "all"@, name@]);
    }
    r
}

/// The argument shape shared by the real send and the dry-run
/// estimate: an optional incremental base `-I @<base>`, then the fully
/// qualified target snapshot.
pub open spec fn send_range_args(base: Option<Seq<char>>, target: Seq<char>) -> Seq<Seq<char>> {
    match base {
        None => seq![target],
        Some(b) => seq!["-I"@, seq!['@'] + b, target],
    }
}

/// `zfs send -nP [-I @base] <volume@snap>`: the dry-run size estimate
/// for the same range the real transfer would cover.
pub fn estimate_cmd(base: Option<&String>, target: &str) -> (r: Cmd)
    ensures
        r.is_zfs(
            seq!["send"@, "-nP"@] + send_range_args(
                match base {
                    Some(b) => Some(b@),
                    None => None,
                },
                target@,
            ),
        ),
{
    let mut args: Vec<String> = Vec::new();
    args.push("send".to_owned());
    args.push("-nP".to_owned());
    push_range_args(&mut args, base, target);
    let r = Cmd { program: "zfs".to_owned(), args };
    proof {
        assert(r.args.deep_view() =~= seq!["send"@, "-nP"@] + send_range_args(
            match base {
                Some(b) => Some(b@),
                None => None,
            },
            target@,
        ));
    }
    r
}

/// `zfs send [-I @base] <volume@snap>`: the real transfer stream.
pub fn send_cmd(base: Option<&String>, target: &str) -> (r: Cmd)
    ensures
        r.is_zfs(
            seq!["send"@] + send_range_args(
                match base {
                    Some(b) => Some(b@),
                    None => None,
                },
                target@,
            ),
        ),
{
    let mut args: Vec<String> = Vec::new();
    args.push("send".to_owned());
    push_range_args(&mut args, base, target);
    let r = Cmd { program: "zfs".to_owned(), args };
    proof {
        assert(r.args.deep_view() =~= seq!["send"@] + send_range_args(
            match base {
                Some(b) => Some(b@),
                None => None,
            },
            target@,
        ));
    }
    r
}

fn push_range_args(args: &mut Vec<String>, base: Option<&String>, target: &str)
    ensures
        final(args)@.len() == old(args)@.len() + match base {
            Some(_) => 3int,
            None => 1int,
        },
        final(args).deep_view() == old(args).deep_view() + send_range_args(
            match base {
                Some(b) => Some(b@),
                None => None,
            },
            target@,
        ),
{
    match base {
        Some(b) => {
            args.push("-I".to_owned());
            let mut at = "@".to_owned();
            at.append(b.as_str());
            proof {
                reveal_strlit("@");
                assert(at@ =~= seq!['@'] + b@);
            }
            args.push(at);
            args.push(target.to_owned());
            proof {
                assert(args.deep_view() =~= old(args).deep_view() + send_range_args(
                    Some(b@),
                    target@,
                ));
            }
        },
        None => {
            args.push(target.to_owned());
            proof {
                assert(args.deep_view() =~= old(args).deep_view() + send_range_args(None, target@));
            }
        },
    }
}

/// `pv -s <size>`: the rate monitor in the middle of the pipeline,
/// told the estimated stream size for progress reporting.
pub fn pv_cmd(size: u64) -> (r: Cmd)
    ensures
        r.program@ == "pv"@,
        r.args.deep_view() == seq!["-s"@, crate::strutil::dec_seq(size as nat)],
{
    let mut args: Vec<String> = Vec::new();
    args.push("-s".to_owned());
    args.push(crate::strutil::u64_string(size));
    let r = Cmd { program: "pv".to_owned(), args };
    proof {
        assert(r.args.deep_view() =~= seq!["-s"@, crate::strutil::dec_seq(size as nat)]);
    }
    r
}

/// `zfs receive -vFu <dest>`: apply the stream at the destination,
/// forcibly overwriting conflicting state and leaving it unmounted.
pub fn receive_cmd(dest: &str) -> (r: Cmd)
    ensures
        r.is_zfs(seq!["receive"@, "-vFu"@, dest@]),
{
    let mut args: Vec<String> = Vec::new();
    args.push("receive".to_owned());
    args.push("-vFu".to_owned());
    args.push(dest.to_owned());
    let r = Cmd { program: "zfs".to_owned(), args };
    proof {
        assert(r.args.deep_view() =~= seq!["receive"@, "-vFu"@, dest@]);
    }
    r
}

/// The `-o name=value` pairs for a volume creation, in property order.
pub open spec fn prop_args(props: Seq<(Seq<char>, Seq<char>)>) -> Seq<Seq<char>>
    decreases props.len(),
{
    if props.len() == 0 {
        Seq::empty()
    } else {
        prop_args(props.drop_last()) + seq!["-o"@, props.last().0 + seq!['='] + props.last().1]
    }
}

/// `zfs create -o k=v ... <dest>`: create the destination volume with
/// the given explicit property overrides.
pub fn create_cmd(props: &Vec<(String, String)>, dest: &str) -> (r: Cmd)
    ensures
        r.is_zfs(seq!["create"@] + prop_args(props.deep_view()) + seq![dest@]),
{
    let mut args: Vec<String> = Vec::new();
    args.push("create".to_owned());
    let ghost pmodels = props.deep_view();
    let mut i: usize = 0;
    proof {
        assert(pmodels.take(0) =~= Seq::<(Seq<char>, Seq<char>)>::empty());
        assert(args.deep_view() =~= seq!["create"@] + prop_args(pmodels.take(0)));
    }
    while i < props.len()
        invariant
            pmodels == props.deep_view(),
            pmodels.len() == props.len(),
            i <= props.len(),
            args.deep_view() == seq!["create"@] + prop_args(pmodels.take(i as int)),
        decreases props.len() - i,
    {
        let ghost before = args.deep_view();
        let pair = &props[i];
        args.push("-o".to_owned());
        let mut setting = pair.0.clone();
        setting.append("=");
        setting.append(pair.1.as_str());
        proof {
            reveal_strlit("=");
            assert(setting@ =~= pmodels[i as int].0 + seq!['='] + pmodels[i as int].1);
        }
        args.push(setting);
        proof {
            assert(args.deep_view() =~= before + seq!["-o"@, setting@]);
            assert(pmodels.take(i + 1).drop_last() =~= pmodels.take(i as int));
            assert(pmodels.take(i + 1).last() == pmodels[i as int]);
            assert(prop_args(pmodels.take(i + 1)) == prop_args(pmodels.take(i as int)) + seq![
                "-o"@,
                pmodels[i as int].0 + seq!['='] + pmodels[i as int].1,
            ]);
            assert(args.deep_view() =~= seq!["create"@] + prop_args(pmodels.take(i + 1)));
        }
        i = i + 1;
    }
    args.push(dest.to_owned());
    let r = Cmd { program: "zfs".to_owned(), args };
    proof {
        assert(pmodels.take(props.len() as int) =~= pmodels);
        assert(r.args.deep_view() =~= seq!["create"@] + prop_args(pmodels) + seq![dest@]);
    }
    r
}

/// Judge a finished transfer pipeline from its three exit statuses.
/// The transfer succeeded only if every stage did; the error names the
/// first stage that failed, in pipeline order.
pub fn pipeline_outcome(extract_ok: bool, monitor_ok: bool, ingest_ok: bool) -> (r: Result<
    (),
    Error,
>)
    ensures
        r is Ok <==> (extract_ok && monitor_ok && ingest_ok),
        !extract_ok ==> r == Err::<(), Error>(Error::StageFailed { stage: Stage::Extract }),
        extract_ok && !monitor_ok ==> r == Err::<(), Error>(
            Error::StageFailed { stage: Stage::Monitor },
        ),
        extract_ok && monitor_ok && !ingest_ok ==> r == Err::<(), Error>(
            Error::StageFailed { stage: Stage::Ingest },
        ),
{
    if !extract_ok {
        Err(Error::StageFailed { stage: Stage::Extract })
    } else if !monitor_ok {
        Err(Error::StageFailed { stage: Stage::Monitor })
    } else if !ingest_ok {
        Err(Error::StageFailed { stage: Stage::Ingest })
    } else {
        Ok(())
    }
}

} // verus!
