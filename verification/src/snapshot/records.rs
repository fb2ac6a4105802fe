//! How one process record of a tick is put together from what was read.

use crate::collect::is_kthread_spec;
use crate::data::model::{FloatKeys, ProcessInfo};
use crate::text::{append_chars, chars_of, string_of};
use vstd::prelude::*;

verus! {

/// Arguments joined by single spaces (`[String]::join(" ")`).
pub open spec fn joined(args: Seq<Seq<char>>) -> Seq<char>
    decreases args.len(),
{
    if args.len() == 0 {
        seq![]
    } else if args.len() == 1 {
        args[0]
    } else {
        joined(args.drop_last()) + seq![' '] + args.last()
    }
}

/// A command line's arguments joined by single spaces.
pub fn join_args(args: &Vec<String>) -> (r: String)
    ensures
        r@ == joined(args@.map_values(|a: String| a@)),
{
    let ghost av = args@.map_values(|a: String| a@);
    let mut out: Vec<char> = Vec::new();
    let mut i: usize = 0;
    while i < args.len()
        invariant
            i <= args@.len(),
            av == args@.map_values(|a: String| a@),
            out@ == joined(av.take(i as int)),
        decreases args@.len() - i,
    {
        proof {
            assert(av.take(i + 1).drop_last() =~= av.take(i as int));
            assert(av.take(i + 1).last() == args@[i as int]@);
        }
        if i > 0 {
            out.push(' ');
        }
        append_chars(&mut out, &chars_of(args[i].as_str()));
        proof {
            if i == 0 {
                assert(av.take(1) =~= seq![args@[0]@]);
                assert(out@ =~= args@[0]@);
            } else {
                assert(out@ =~= joined(av.take(i as int)) + seq![' '] + args@[i as int]@);
            }
        }
        i = i + 1;
    }
    assert(av.take(i as int) =~= av);
    string_of(&out)
}

/// Whether a process runs in a graphical session, where it need not be
/// read again: a kernel thread never does; a process seen at the previous
/// tick with the same start time keeps what was found then. `None` means
/// that its environment has to be read.
pub fn gui_from_cache(is_kthread: bool, prev: Option<(u64, bool)>, starttime: u64) -> (r: Option<
    bool,
>)
    ensures
        r == (if is_kthread {
            Some(false)
        } else {
            match prev {
                Some((s, g)) => if s == starttime {
                    Some(g)
                } else {
                    None
                },
                None => None,
            }
        }),
{
    if is_kthread {
        return Some(false);
    }
    match prev {
        Some((s, g)) => {
            if s == starttime {
                Some(g)
            } else {
                None
            }
        },
        None => None,
    }
}

/// What the reads of one process give, before the record is made.
pub struct ProcessReads {
    pub pid: i32,
    pub ppid: i32,
    /// The process name from its stat file (the kernel's `comm`).
    pub comm: String,
    /// The name shown for the process (the base name of its first
    /// argument, or `comm`).
    pub name: String,
    pub state: char,
    pub command: String,
    pub cgroup: String,
    pub uid: u32,
    pub user: String,
    /// Resident set size in kB.
    pub vmrss_kb: u64,
    /// The environment names a display.
    pub env_gui: bool,
    /// The video memory the GPU back-end reports for the process.
    pub vram: Option<u64>,
    pub icon_name: Option<String>,
    pub keys: FloatKeys,
}

/// The record of a process at a tick: whether it is a kernel thread is
/// decided from its parent and its stat name; a kernel thread is never
/// graphical and has no control group, icon or video memory; the resident
/// size is in bytes; ownership
/// compares the real user id with the collector's; the tree and Electron
/// marks are left for the passes over all records.
pub fn process_record(reads: ProcessReads, current_uid: u32) -> (r: ProcessInfo)
    requires
        reads.vmrss_kb * 1024 <= u64::MAX,
    ensures
        r.pid == reads.pid,
        r.ppid == reads.ppid,
        r.name == reads.name,
        r.user == reads.user,
        r.state == reads.state,
        r.command == reads.command,
        r.cgroup@ == (if r.is_kthread {
            Seq::<char>::empty()
        } else {
            reads.cgroup@
        }),
        r.mem_rss == reads.vmrss_kb * 1024,
        r.is_kthread == is_kthread_spec(reads.ppid, reads.comm@),
        r.is_gui == (!r.is_kthread && reads.env_gui),
        r.vram_bytes == (if r.is_kthread {
            None
        } else {
            reads.vram
        }),
        r.is_owned_by_current_user == (reads.uid == current_uid),
        !r.is_electron,
        r.electron_app_name is None,
        r.icon_name == (if r.is_kthread {
            None
        } else {
            reads.icon_name
        }),
        !r.has_children,
        r.keys == reads.keys,
{
    let is_kthread = crate::collect::is_kthread(reads.ppid, reads.comm.as_str());
    ProcessInfo {
        pid: reads.pid,
        ppid: reads.ppid,
        name: reads.name,
        user: reads.user,
        state: reads.state,
        command: reads.command,
        cgroup: if is_kthread {
            String::new()
        } else {
            reads.cgroup
        },
        mem_rss: reads.vmrss_kb * 1024,
        vram_bytes: if is_kthread {
            None
        } else {
            reads.vram
        },
        is_gui: !is_kthread && reads.env_gui,
        is_kthread,
        is_owned_by_current_user: reads.uid == current_uid,
        is_electron: false,
        electron_app_name: None,
        icon_name: if is_kthread {
            None
        } else {
            reads.icon_name
        },
        has_children: false,
        keys: reads.keys,
    }
}

/// The icon names of the first `n` processes, each once, in the order they
/// first occur.
pub open spec fn icon_names_upto(ps: Seq<ProcessInfo>, n: int) -> Seq<Seq<char>>
    decreases n,
{
    if n <= 0 {
        seq![]
    } else {
        let rest = icon_names_upto(ps, n - 1);
        match ps[n - 1].icon_name {
            Some(x) => if rest.contains(x@) {
                rest
            } else {
                rest.push(x@)
            },
            None => rest,
        }
    }
}

/// The icon names of some processes, each once, in the order they first
/// occur (what the icon cache is warmed with).
pub fn icon_names(processes: &Vec<ProcessInfo>) -> (r: Vec<String>)
    ensures
        r@.map_values(|s: String| s@) == icon_names_upto(processes@, processes@.len() as int),
{
    let mut r: Vec<String> = Vec::new();
    let mut i: usize = 0;
    while i < processes.len()
        invariant
            i <= processes@.len(),
            r@.map_values(|s: String| s@) == icon_names_upto(processes@, i as int),
        decreases processes@.len() - i,
    {
        let ghost before = r@.map_values(|s: String| s@);
        match &processes[i].icon_name {
            Some(x) => {
                let xc = chars_of(x.as_str());
                let mut seen = false;
                let mut j: usize = 0;
                while j < r.len()
                    invariant
                        j <= r@.len(),
                        xc@ == x@,
                        before == r@.map_values(|s: String| s@),
                        seen == exists|k: int| 0 <= k < j && r@[k]@ == x@,
                    decreases r@.len() - j,
                {
                    if crate::text::chars_eq(&chars_of(r[j].as_str()), &xc) {
                        seen = true;
                    }
                    j = j + 1;
                }
                proof {
                    if seen {
                        let k = choose|k: int| 0 <= k < r@.len() && r@[k]@ == x@;
                        assert(before[k] == x@);
                    }
                    if before.contains(x@) {
                        let k = choose|k: int| 0 <= k < before.len() && before[k] == x@;
                        assert(r@[k]@ == x@);
                    }
                }
                if !seen {
                    r.push(x.clone());
                    assert(r@.map_values(|s: String| s@) =~= before.push(x@));
                }
            },
            None => {},
        }
        i = i + 1;
    }
    r
}

} // verus!
