//! The per-process `/proc` read shared by the tick collector and the
//! properties view: identity, CPU ticks and the name the table shows.

use crate::collect::is_kthread_spec;
use crate::snapshot::processes::{file_name_of, opt_view, path_file_name};
use crate::text::{chars_of, decimal, decimal_u64, string_of};
use vstd::prelude::*;

verus! {

/// The fields of `/proc/<pid>/stat` that are read (`procfs::Stat`).
#[derive(Debug)]
pub struct StatFields {
    pub comm: String,
    pub state: char,
    pub ppid: i32,
    pub utime: u64,
    pub stime: u64,
    pub cutime: i64,
    pub cstime: i64,
    pub starttime: u64,
}

/// The fields of `/proc/<pid>/status` that are read (`procfs::Status`).
#[derive(Debug, Clone, Copy, PartialEq, Eq, Structural)]
pub struct StatusFields {
    pub ruid: u32,
    /// Resident set size in kB.
    pub vmrss: Option<u64>,
}

/// One process's stat, status and command line.
#[derive(Debug)]
pub struct ProcBasics {
    pub stat: StatFields,
    pub status: StatusFields,
    pub cmdline: Vec<String>,
    pub is_kthread: bool,
}

/// The name a process shows: the last component of `argv[0]` when there is
/// a non-empty one and it has a last component, else the kernel's `comm`.
pub open spec fn basics_name_spec(cmdline: Seq<String>, comm: Seq<char>) -> Seq<char> {
    if cmdline.len() > 0 && cmdline[0]@.len() > 0 {
        match path_file_name(cmdline[0]@) {
            Some(n) => n,
            None => comm,
        }
    } else {
        comm
    }
}

impl ProcBasics {
    /// Whether the stat fields tell a kernel thread (a child of pid 2 or a
    /// name in brackets): such a process has no command line to read.
    pub fn stat_is_kthread(stat: &StatFields) -> (r: bool)
        ensures
            r == is_kthread_spec(stat.ppid, stat.comm@),
    {
        crate::collect::is_kthread(stat.ppid, stat.comm.as_str())
    }

    /// Puts the reads together; a kernel thread keeps no command line.
    pub fn new(stat: StatFields, status: StatusFields, cmdline: Vec<String>) -> (r: ProcBasics)
        ensures
            r.stat == stat,
            r.status == status,
            r.is_kthread == is_kthread_spec(stat.ppid, stat.comm@),
            r.cmdline@ == (if r.is_kthread {
                Seq::<String>::empty()
            } else {
                cmdline@
            }),
    {
        let is_kthread = Self::stat_is_kthread(&stat);
        let cmdline = if is_kthread {
            Vec::new()
        } else {
            cmdline
        };
        ProcBasics { stat, status, cmdline, is_kthread }
    }

    /// User, system, children's user and children's system ticks.
    pub open spec fn tick_sum_spec(&self) -> int {
        self.stat.utime + self.stat.stime + (self.stat.cutime as u64) + (self.stat.cstime as u64)
    }

    /// The CPU ticks a process has used (see `tick_sum_spec`).
    pub fn cpu_tick_sum(&self) -> (r: u64)
        requires
            self.tick_sum_spec() <= u64::MAX,
        ensures
            r == self.tick_sum_spec(),
    {
        self.stat.utime + self.stat.stime + (self.stat.cutime as u64) + (self.stat.cstime as u64)
    }

    /// The CPU ticks a process has used, where their sum fits in 64 bits.
    pub fn cpu_tick_sum_checked(&self) -> (r: Option<u64>)
        ensures
            r matches Some(t) ==> t == self.tick_sum_spec(),
            r is None <==> self.tick_sum_spec() > u64::MAX,
    {
        match self.stat.utime.checked_add(self.stat.stime) {
            Some(a) => match a.checked_add(self.stat.cutime as u64) {
                Some(b) => b.checked_add(self.stat.cstime as u64),
                None => None,
            },
            None => None,
        }
    }

    /// The name the process table shows (see `basics_name_spec`).
    pub fn name(&self) -> (r: String)
        ensures
            r@ == basics_name_spec(self.cmdline@, self.stat.comm@),
    {
        if self.cmdline.len() > 0 && self.cmdline[0].as_str().unicode_len() > 0 {
            match file_name_of(self.cmdline[0].as_str()) {
                Some(n) => n,
                None => self.stat.comm.clone(),
            }
        } else {
            self.stat.comm.clone()
        }
    }
}

/// The login name that `users::get_user_by_uid` finds for a user id in the
/// system's user database (lossily converted to UTF-8), `None` where it
/// finds none. Nothing is promised of the answer: it depends on the
/// database, not on the id alone.
#[verifier::external_body]
fn user_name_of(uid: u32) -> (r: Option<String>) {
    users::get_user_by_uid(uid).map(|u| u.name().to_string_lossy().into_owned())
}

/// How a user is shown: the login name, or the user id in decimal where
/// the user database has none.
pub open spec fn user_label_spec(found: Option<Seq<char>>, uid: u32) -> Seq<char> {
    match found {
        Some(n) => n,
        None => decimal(uid as nat),
    }
}

/// How a user is shown, given the user database's answer.
pub fn user_label(found: Option<String>, uid: u32) -> (r: String)
    ensures
        r@ == user_label_spec(opt_view(found), uid),
{
    match found {
        Some(n) => n,
        None => string_of(&decimal_u64(uid as u64)),
    }
}

/// The name shown for a user id: the login name, or the id in decimal.
/// Which of the two depends on the system's user database.
pub fn username_for_uid(uid: u32) -> (r: String)
    ensures
        exists|found: Option<Seq<char>>| r@ == user_label_spec(found, uid),
{
    let found = user_name_of(uid);
    let r = user_label(found, uid);
    assert(r@ == user_label_spec(opt_view(found), uid));
    r
}

} // verus!
