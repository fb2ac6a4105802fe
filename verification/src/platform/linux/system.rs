//! Service detection of the first generation: a systemd service is told by
//! its cgroup path alone.

use crate::model::ProcessInfo;
use crate::text::{chars_of, contains_chars, contains_seq};
use std::collections::HashSet;
use vstd::prelude::*;

pub use crate::data::platform::linux::system::{
    detect_init, pids_named, pids_of_runsv, InitProbe, InitSystem,
};

verus! {

broadcast use vstd::std_specs::hash::group_hash_axioms;

/// Whether a process counts as a service under the given init system.
pub open spec fn is_service_spec(
    p: ProcessInfo,
    init: InitSystem,
    runsv_pids: Set<i32>,
    supervise_pids: Set<i32>,
) -> bool {
    match init {
        InitSystem::Systemd => if p.cgroup@.len() == 0 {
            p.ppid == 1
        } else {
            !contains_seq(p.cgroup@, "/user.slice/"@) && contains_seq(p.cgroup@, ".service"@)
        },
        InitSystem::OpenRc => p.ppid == 1 || supervise_pids.contains(p.ppid),
        InitSystem::Runit => runsv_pids.contains(p.ppid),
        _ => p.ppid == 1,
    }
}

/// Whether a process counts as a service: under systemd, a process whose
/// cgroup path names a `.service` outside `/user.slice/` (or, without a
/// cgroup, a child of process 1); under OpenRC, a child of process 1 or of
/// a `supervise-daemon`; under runit, a child of a `runsv`; otherwise a
/// child of process 1.
pub fn is_service(
    proc: &ProcessInfo,
    init: InitSystem,
    runsv_pids: &HashSet<i32>,
    supervise_pids: &HashSet<i32>,
) -> (r: bool)
    ensures
        r == is_service_spec(*proc, init, runsv_pids@, supervise_pids@),
{
    match init {
        InitSystem::Systemd => {
            if proc.cgroup.as_str().is_empty() {
                return proc.ppid == 1;
            }
            let cg = chars_of(proc.cgroup.as_str());
            !contains_chars(&cg, &chars_of("/user.slice/")) && contains_chars(&cg, &chars_of(".service"))
        },
        InitSystem::OpenRc => proc.ppid == 1 || supervise_pids.contains(&proc.ppid),
        InitSystem::Runit => runsv_pids.contains(&proc.ppid),
        _ => proc.ppid == 1,
    }
}

} // verus!
