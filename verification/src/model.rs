//! The first-generation model: theme choice, filters with their labels and
//! the process-state labels, next to the types it shares with `data::model`.

use crate::data::model::{
    count_descendants_from, find_pid, lit, pid_index, reaches_within, walk_reaches,
};
use crate::text::{append_chars, chars_of, decimal, decimal_i32, decimal_int, decimal_u64, string_of};
use vstd::prelude::*;

pub use crate::data::model::{
    FilterMode, GpuBackend, PidFilterMode, ProcessGrouping, ProcessInfo,
    ResourceViewMode, SortColumn, VramPolling,
};

verus! {

/// Memory and swap figures in bytes.
#[derive(Debug, Clone, Copy, PartialEq, Eq, Structural)]
pub struct MemoryInfo {
    pub total: u64,
    pub used: u64,
    pub available: u64,
    pub free: u64,
    pub buffers: u64,
    pub cached: u64,
    pub swap_total: u64,
    pub swap_free: u64,
    pub swap_used: u64,
}

#[derive(Debug, Clone, Copy, PartialEq, Eq, Structural)]
pub enum Theme {
    Dark,
    Light,
    System,
}

impl Theme {
    pub open spec fn display_spec(self) -> Seq<char> {
        match self {
            Theme::Dark => "Dark"@,
            Theme::Light => "Light"@,
            Theme::System => "System"@,
        }
    }

    /// The display text.
    pub fn to_string(&self) -> (r: String)
        ensures
            r@ == self.display_spec(),
    {
        match self {
            Theme::Dark => lit("Dark"),
            Theme::Light => lit("Light"),
            Theme::System => lit("System"),
        }
    }
}

/// A condition that a table row can be required to meet.
#[derive(Debug, Clone, Copy, PartialEq, Eq, Structural)]
pub enum Filter {
    Gui,
    User,
    System,
    Services,
    Kernel,
    Parent,
    Vram,
    Electron,
    ProcessState(char),
    Pid(i32),
}

/// Human-readable label of a Linux process state character (`'t'`, tracing
/// stop, is reported as stopped).
pub open spec fn state_label_spec(c: char) -> Seq<char> {
    if c == 'R' {
        "Running"@
    } else if c == 'S' {
        "Sleeping"@
    } else if c == 'D' {
        "Disk Sleep"@
    } else if c == 'Z' {
        "Zombie"@
    } else if c == 'T' || c == 't' {
        "Stopped"@
    } else if c == 'I' {
        "Idle"@
    } else if c == 'X' {
        "Dead"@
    } else {
        "Other"@
    }
}

/// Human-readable label for a Linux process state character.
pub fn state_label(c: char) -> (r: &'static str)
    ensures
        r@ == state_label_spec(c),
{
    match c {
        'R' => "Running",
        'S' => "Sleeping",
        'D' => "Disk Sleep",
        'Z' => "Zombie",
        'T' => "Stopped",
        't' => "Stopped",
        'I' => "Idle",
        'X' => "Dead",
        _ => "Other",
    }
}

/// `child_pid` is `ancestor` or reaches it within 100 parent links.
pub open spec fn is_descendant_flat_spec(all: Seq<ProcessInfo>, child_pid: i32, ancestor: i32) -> bool {
    reaches_within(all, child_pid, ancestor, 100)
}

/// Whether `child_pid` is `ancestor` or descends from it in the flat list
/// (at most 100 parent links are followed).
pub fn is_descendant_of_flat(child_pid: i32, ancestor: i32, all: &Vec<ProcessInfo>) -> (r: bool)
    ensures
        r == is_descendant_flat_spec(all@, child_pid, ancestor),
{
    walk_reaches(child_pid, ancestor, all, 100)
}

/// The number of processes in `all[i..]` that are or descend from `ancestor`.
pub open spec fn count_walk_from(all: Seq<ProcessInfo>, ancestor: i32, i: int) -> nat
    decreases all.len() - i,
{
    if i < 0 || i >= all.len() {
        0
    } else {
        (if is_descendant_flat_spec(all, all[i].pid, ancestor) {
            1nat
        } else {
            0nat
        }) + count_walk_from(all, ancestor, i + 1)
    }
}

/// The label of a filter as the filter bar shows it.
pub open spec fn filter_label_spec(f: Filter, all: Seq<ProcessInfo>) -> Seq<char> {
    match f {
        Filter::Gui => "GUI"@,
        Filter::User => "User"@,
        Filter::System => "System"@,
        Filter::Services => "Services"@,
        Filter::Kernel => "Kernel"@,
        Filter::Parent => "Parent"@,
        Filter::Vram => "VRAM"@,
        Filter::Electron => "Electron"@,
        Filter::ProcessState(c) => state_label_spec(c),
        Filter::Pid(pid) => {
            let name = match pid_index(all, pid) {
                Some(k) => all[k].name@,
                None => decimal_int(pid as int),
            };
            name + " (+"@ + decimal(count_walk_from(all, pid, 0)) + " children)"@
        },
    }
}

/// A filter on a kind of process rather than on one process.
pub open spec fn is_type_filter_spec(f: Filter) -> bool {
    !(f is Pid)
}

/// Counts the processes of `all` that are or descend from `ancestor`.
pub fn count_walk(all: &Vec<ProcessInfo>, ancestor: i32) -> (r: u64)
    ensures
        r as nat == count_walk_from(all@, ancestor, 0),
{
    let mut n: u64 = 0;
    let mut i = all.len();
    while i > 0
        invariant
            i <= all.len(),
            n as nat == count_walk_from(all@, ancestor, i as int),
            n <= all.len() - i,
        decreases i,
    {
        i = i - 1;
        if is_descendant_of_flat(all[i].pid, ancestor, all) {
            n = n + 1;
        }
    }
    n
}

impl Filter {
    /// Whether this filter selects a kind of process (every filter but `Pid`).
    pub fn is_type_filter(&self) -> (r: bool)
        ensures
            r == is_type_filter_spec(*self),
    {
        match self {
            Filter::Pid(_) => false,
            _ => true,
        }
    }

    /// The label of this filter as the filter bar shows it.
    pub fn label(&self, processes: &Vec<ProcessInfo>) -> (r: String)
        ensures
            r@ == filter_label_spec(*self, processes@),
    {
        match self {
            Filter::Gui => lit("GUI"),
            Filter::User => lit("User"),
            Filter::System => lit("System"),
            Filter::Services => lit("Services"),
            Filter::Kernel => lit("Kernel"),
            Filter::Parent => lit("Parent"),
            Filter::Vram => lit("VRAM"),
            Filter::Electron => lit("Electron"),
            Filter::ProcessState(c) => lit(state_label(*c)),
            Filter::Pid(pid) => {
                let count = count_walk(processes, *pid);
                let mut out = match find_pid(processes, *pid) {
                    Some(k) => chars_of(processes[k].name.as_str()),
                    None => decimal_i32(*pid),
                };
                append_chars(&mut out, &chars_of(" (+"));
                append_chars(&mut out, &decimal_u64(count));
                append_chars(&mut out, &chars_of(" children)"));
                string_of(&out)
            },
        }
    }
}

} // verus!
