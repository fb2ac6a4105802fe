//! Init-system classification and service detection.

use crate::data::model::ProcessInfo;
use crate::data::model::lit;
use crate::text::{
    chars_eq, chars_of, contains_chars, contains_seq, ends_with, ends_with_chars, lines, lines_of,
    rfind, rfind_char, subvec, trim, trim_chars,
};
use std::collections::HashSet;
use vstd::prelude::*;

verus! {

broadcast use vstd::std_specs::hash::group_hash_axioms;

/// The first line of `s` as `str::lines` yields it, or nothing.
pub open spec fn first_line(s: Seq<char>) -> Seq<char> {
    if lines(s).len() > 0 {
        lines(s)[0]
    } else {
        seq![]
    }
}

/// What follows the last `'/'` of `s` (all of `s` where there is none).
pub open spec fn last_segment(s: Seq<char>) -> Seq<char> {
    match rfind(s, '/') {
        Some(j) => s.subrange(j + 1, s.len() as int),
        None => s,
    }
}

/// A cgroup line names a systemd service unit: the last path segment of its
/// trimmed first line ends with `.service`.
pub open spec fn is_service_cgroup_spec(cgroup: Seq<char>) -> bool {
    ends_with(last_segment(trim(first_line(cgroup))), ".service"@)
}

/// Check if a cgroup path belongs to a systemd service unit.
///
/// The cgroup string comes from `/proc/{pid}/cgroup` and may contain a
/// trailing newline. On cgroups v2 the format is `0::/path/to/unit`.
/// A service unit's cgroup segment ends with `.service`.
pub fn is_systemd_service_cgroup(cgroup: &str) -> (r: bool)
    ensures
        r == is_service_cgroup_spec(cgroup@),
{
    let all = chars_of(cgroup);
    let ls = lines_of(&all);
    let first: Vec<char> = if ls.len() > 0 {
        ls[0].clone()
    } else {
        Vec::new()
    };
    assert(first@ == first_line(cgroup@));
    let t = trim_chars(&first);
    let seg = match rfind_char(&t, '/') {
        Some(j) => subvec(&t, j + 1, t.len()),
        None => t,
    };
    ends_with_chars(&seg, &chars_of(".service"))
}

/// The init system that runs as process 1.
#[derive(Debug, Clone, Copy, PartialEq, Eq, Structural)]
pub enum InitSystem {
    Systemd,
    OpenRc,
    Runit,
    Dinit,
    SysV,
    Unknown,
}

impl InitSystem {
    pub open spec fn display_spec(self) -> Seq<char> {
        match self {
            InitSystem::Systemd => "systemd"@,
            InitSystem::OpenRc => "OpenRC"@,
            InitSystem::Runit => "runit"@,
            InitSystem::Dinit => "dinit"@,
            InitSystem::SysV => "SysV init"@,
            InitSystem::Unknown => "unknown"@,
        }
    }

    /// The display text.
    pub fn to_string(&self) -> (r: String)
        ensures
            r@ == self.display_spec(),
    {
        match self {
            InitSystem::Systemd => lit("systemd"),
            InitSystem::OpenRc => lit("OpenRC"),
            InitSystem::Runit => lit("runit"),
            InitSystem::Dinit => lit("dinit"),
            InitSystem::SysV => lit("SysV init"),
            InitSystem::Unknown => lit("unknown"),
        }
    }
}


/// What the filesystem shows about the running init system.
pub struct InitProbe {
    /// `/run/systemd/system` exists.
    pub systemd_run_dir: bool,
    /// `/run/dinit/control` exists.
    pub dinit_control: bool,
    /// `/run/runit` exists.
    pub runit_run_dir: bool,
    /// `/run/openrc` exists.
    pub openrc_run_dir: bool,
    /// Where the link `/proc/1/exe` points, when it can be read.
    pub pid1_exe: Option<String>,
    /// `/etc/inittab` exists.
    pub inittab: bool,
}

/// The init system that a probe shows.
pub open spec fn detect_init_spec(p: InitProbe) -> InitSystem {
    if p.systemd_run_dir {
        InitSystem::Systemd
    } else if p.dinit_control {
        InitSystem::Dinit
    } else if p.runit_run_dir {
        InitSystem::Runit
    } else if p.openrc_run_dir {
        InitSystem::OpenRc
    } else {
        let from_exe: Option<InitSystem> = match p.pid1_exe {
            Some(exe) => {
                let s = exe@;
                if contains_seq(s, "systemd"@) {
                    Some(InitSystem::Systemd)
                } else if contains_seq(s, "dinit"@) {
                    Some(InitSystem::Dinit)
                } else if contains_seq(s, "runit"@) {
                    Some(InitSystem::Runit)
                } else if (contains_seq(s, "openrc-init"@) || contains_seq(s, "/sbin/init"@))
                    && p.inittab {
                    Some(InitSystem::SysV)
                } else {
                    None
                }
            },
            None => None,
        };
        match from_exe {
            Some(i) => i,
            None => if p.inittab {
                InitSystem::SysV
            } else {
                InitSystem::Unknown
            },
        }
    }
}

/// Decides the init system from what the filesystem shows: the run
/// directories of systemd, dinit, runit and OpenRC in that order, then the
/// executable of process 1, then `/etc/inittab`.
pub fn detect_init(probe: &InitProbe) -> (r: InitSystem)
    ensures
        r == detect_init_spec(*probe),
{
    if probe.systemd_run_dir {
        return InitSystem::Systemd;
    }
    if probe.dinit_control {
        return InitSystem::Dinit;
    }
    if probe.runit_run_dir {
        return InitSystem::Runit;
    }
    if probe.openrc_run_dir {
        return InitSystem::OpenRc;
    }
    if let Some(exe) = &probe.pid1_exe {
        let s = chars_of(exe.as_str());
        if contains_chars(&s, &chars_of("systemd")) {
            return InitSystem::Systemd;
        }
        if contains_chars(&s, &chars_of("dinit")) {
            return InitSystem::Dinit;
        }
        if contains_chars(&s, &chars_of("runit")) {
            return InitSystem::Runit;
        }
        if contains_chars(&s, &chars_of("openrc-init")) || contains_chars(&s, &chars_of("/sbin/init")) {
            if probe.inittab {
                return InitSystem::SysV;
            }
        }
    }
    if probe.inittab {
        return InitSystem::SysV;
    }
    InitSystem::Unknown
}

/// The process has the given name.
pub fn name_is(p: &ProcessInfo, name: &str) -> (r: bool)
    ensures
        r == (p.name@ == name@),
{
    chars_eq(&chars_of(p.name.as_str()), &chars_of(name))
}

/// The pids of the processes named `name`.
pub open spec fn pids_named(processes: Seq<ProcessInfo>, name: Seq<char>) -> Set<i32> {
    Set::new(
        |pid: i32|
            exists|i: int| 0 <= i < processes.len() && processes[i].name@ == name && processes[i].pid == pid,
    )
}

/// Collects the pids of the processes named `name`.
pub fn pids_with_name(processes: &[ProcessInfo], name: &str) -> (r: HashSet<i32>)
    ensures
        r@ == pids_named(processes@, name@),
{
    let mut r: HashSet<i32> = HashSet::new();
    let mut i: usize = 0;
    while i < processes.len()
        invariant
            i <= processes@.len(),
            r@ == pids_named(processes@.take(i as int), name@),
        decreases processes.len() - i,
    {
        let ghost before = r@;
        let is_match = name_is(&processes[i], name);
        if is_match {
            r.insert(processes[i].pid);
        }
        proof {
            let next = processes@.take(i + 1);
            let prev = processes@.take(i as int);
            assert forall|pid: i32| r@.contains(pid) implies pids_named(next, name@).contains(pid) by {
                if before.contains(pid) {
                    let k = choose|k: int|
                        0 <= k < prev.len() && prev[k].name@ == name@ && prev[k].pid == pid;
                    assert(next[k] == prev[k]);
                } else {
                    assert(next[i as int] == processes@[i as int]);
                }
            }
            assert forall|pid: i32| pids_named(next, name@).contains(pid) implies r@.contains(pid) by {
                let k = choose|k: int|
                    0 <= k < next.len() && next[k].name@ == name@ && next[k].pid == pid;
                if k < i {
                    assert(prev[k] == next[k]);
                    assert(pids_named(prev, name@).contains(pid));
                }
            }
            assert(r@ =~= pids_named(next, name@));
        }
        i = i + 1;
    }
    assert(processes@.take(processes@.len() as int) =~= processes@);
    r
}

/// The pids of the `runsv` processes (runit supervisors).
pub fn pids_of_runsv(processes: &[ProcessInfo]) -> (r: HashSet<i32>)
    ensures
        r@ == pids_named(processes@, "runsv"@),
{
    pids_with_name(processes, "runsv")
}

/// The pids of the `supervise-daemon` processes (OpenRC supervisors).
pub fn pids_of_supervise_daemon(processes: &[ProcessInfo]) -> (r: HashSet<i32>)
    ensures
        r@ == pids_named(processes@, "supervise-daemon"@),
{
    pids_with_name(processes, "supervise-daemon")
}

/// Whether a process counts as a service under the given init system.
pub open spec fn is_service_spec(
    p: ProcessInfo,
    init: InitSystem,
    runsv_pids: Set<i32>,
    supervise_pids: Set<i32>,
) -> bool {
    match init {
        InitSystem::Systemd => if p.cgroup@.len() == 0 {
            p.ppid == 1
        } else {
            is_service_cgroup_spec(p.cgroup@)
        },
        InitSystem::OpenRc => p.ppid == 1 || supervise_pids.contains(p.ppid),
        InitSystem::Runit => runsv_pids.contains(p.ppid),
        _ => p.ppid == 1,
    }
}

/// Whether a process counts as a service: under systemd, a process in a
/// `.service` cgroup (or, without a cgroup, a child of process 1); under
/// OpenRC, a child of process 1 or of a `supervise-daemon`; under runit, a
/// child of a `runsv`; otherwise a child of process 1.
pub fn is_service(
    proc: &ProcessInfo,
    init: InitSystem,
    runsv_pids: &HashSet<i32>,
    supervise_pids: &HashSet<i32>,
) -> (r: bool)
    ensures
        r == is_service_spec(*proc, init, runsv_pids@, supervise_pids@),
{
    match init {
        InitSystem::Systemd => {
            if proc.cgroup.as_str().is_empty() {
                return proc.ppid == 1;
            }
            is_systemd_service_cgroup(proc.cgroup.as_str())
        },
        InitSystem::OpenRc => proc.ppid == 1 || supervise_pids.contains(&proc.ppid),
        InitSystem::Runit => runsv_pids.contains(&proc.ppid),
        _ => proc.ppid == 1,
    }
}

} // verus!
