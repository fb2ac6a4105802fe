//! What the collector keeps between ticks and the logic it applies to the
//! processes it reads.

pub mod collector;
pub mod proc_basics;
pub mod processes;
pub mod records;

use std::collections::HashMap;
use vstd::prelude::*;

verus! {

broadcast use vstd::std_specs::hash::group_hash_axioms;

/// Per-core CPU tick totals and idle ticks of the previous tick.
pub struct PrevCpu {
    pub totals: Vec<(u64, u64)>,
}

/// A process's CPU ticks at the previous tick, with what is fixed at exec
/// time.
#[derive(Clone, Copy)]
pub struct PrevProc {
    pub utime: u64,
    pub stime: u64,
    pub cutime: u64,
    pub cstime: u64,
    /// The environment names a display (fixed at exec time).
    pub is_gui: bool,
    /// Tells a reused pid from the same process.
    pub starttime: u64,
}

/// A disk's byte counters at the previous tick.
pub struct PrevDisk {
    pub read_bytes: u64,
    pub write_bytes: u64,
}

/// A network interface's byte counters at the previous tick.
pub struct PrevNet {
    pub rx_bytes: u64,
    pub tx_bytes: u64,
}

/// Why a per-process read failed: the process is gone, or it exists but
/// its data cannot be read.
#[derive(Debug, Clone, Copy, PartialEq, Eq, Structural)]
pub enum ReadError {
    Dead,
    Unavailable,
}

/// Whether a process is alive, where the platform offers no way to probe
/// one: never.
pub fn pid_alive(pid: i32) -> (r: bool)
    ensures
        !r,
{
    false
}

/// The table that inserting the first `upto` entries in order builds (a
/// later entry for a pid replaces an earlier one).
pub open spec fn prev_table_upto(entries: Seq<(i32, PrevProc)>, upto: int) -> Map<i32, PrevProc>
    decreases upto,
{
    if upto <= 0 {
        Map::empty()
    } else {
        prev_table_upto(entries, upto - 1).insert(entries[upto - 1].0, entries[upto - 1].1)
    }
}

proof fn lemma_prev_table_keys(entries: Seq<(i32, PrevProc)>, upto: int)
    requires
        0 <= upto <= entries.len(),
    ensures
        forall|pid: i32|
            prev_table_upto(entries, upto).contains_key(pid) <==> exists|k: int|
                0 <= k < upto && (#[trigger] entries[k]).0 == pid,
    decreases upto,
{
    if upto > 0 {
        lemma_prev_table_keys(entries, upto - 1);
        let before = prev_table_upto(entries, upto - 1);
        assert forall|pid: i32|
            prev_table_upto(entries, upto).contains_key(pid) <==> exists|k: int|
                0 <= k < upto && (#[trigger] entries[k]).0 == pid by {
            if pid == entries[upto - 1].0 {
                assert(entries[upto - 1].0 == pid);
            } else {
                if before.contains_key(pid) {
                    let k = choose|k: int| 0 <= k < upto - 1 && (#[trigger] entries[k]).0 == pid;
                    assert(entries[k].0 == pid);
                }
                if exists|k: int| 0 <= k < upto && (#[trigger] entries[k]).0 == pid {
                    let k = choose|k: int| 0 <= k < upto && (#[trigger] entries[k]).0 == pid;
                    assert(k != upto - 1);
                    assert(entries[k].0 == pid);
                }
            }
        }
    }
}

/// The per-process table kept for the next tick: the entries of the
/// processes read in this tick, keyed by pid; it holds exactly their pids,
/// and a later entry for a pid replaces an earlier one.
pub fn next_prev_table(entries: &Vec<(i32, PrevProc)>) -> (r: HashMap<i32, PrevProc>)
    ensures
        r@ == prev_table_upto(entries@, entries@.len() as int),
        forall|pid: i32|
            r@.contains_key(pid) <==> exists|k: int|
                0 <= k < entries@.len() && (#[trigger] entries@[k]).0 == pid,
{
    let mut m: HashMap<i32, PrevProc> = HashMap::new();
    let mut i: usize = 0;
    while i < entries.len()
        invariant
            i <= entries@.len(),
            m@ == prev_table_upto(entries@, i as int),
        decreases entries@.len() - i,
    {
        let (pid, prev) = entries[i];
        m.insert(pid, prev);
        i = i + 1;
    }
    proof {
        lemma_prev_table_keys(entries@, entries@.len() as int);
    }
    m
}

} // verus!
