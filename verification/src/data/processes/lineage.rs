//! Parent links in a flat process list: pid lookups, ancestor chains and
//! which processes lie above which.

use crate::data::model::ProcessInfo;
use vstd::prelude::*;

verus! {

// ---------------------------------------------------------------------
// Pid lookup
// ---------------------------------------------------------------------
/// The last index below `end` whose process has the given pid.
pub open spec fn slot_before(all: Seq<ProcessInfo>, pid: i32, end: int) -> Option<int>
    decreases end,
{
    if end <= 0 {
        None
    } else if all[end - 1].pid == pid {
        Some(end - 1)
    } else {
        slot_before(all, pid, end - 1)
    }
}

/// The index that a pid-to-index map built from `all` in list order gives
/// `pid`: the last process with that pid.
pub open spec fn slot(all: Seq<ProcessInfo>, pid: i32) -> Option<int> {
    slot_before(all, pid, all.len() as int)
}

pub proof fn lemma_slot_before(all: Seq<ProcessInfo>, pid: i32, end: int)
    requires
        0 <= end <= all.len(),
    ensures
        slot_before(all, pid, end) matches Some(k) ==> 0 <= k < end && all[k].pid == pid && forall|
            m: int,
        |
            k < m < end ==> all[m].pid != pid,
        slot_before(all, pid, end) is None ==> forall|m: int| 0 <= m < end ==> all[m].pid != pid,
    decreases end,
{
    if end > 0 && all[end - 1].pid != pid {
        lemma_slot_before(all, pid, end - 1);
    }
}

pub proof fn lemma_slot(all: Seq<ProcessInfo>, pid: i32)
    ensures
        slot(all, pid) matches Some(k) ==> 0 <= k < all.len() && all[k].pid == pid && forall|
            m: int,
        |
            k < m < all.len() ==> all[m].pid != pid,
        slot(all, pid) is None ==> forall|m: int| 0 <= m < all.len() ==> all[m].pid != pid,
{
    lemma_slot_before(all, pid, all.len() as int);
}

/// Looks a pid up the way a map from pid to index built in list order does.
pub fn find_slot(all: &Vec<ProcessInfo>, pid: i32) -> (r: Option<usize>)
    ensures
        r matches Some(k) ==> slot(all@, pid) == Some(k as int) && k < all@.len() && all@[k as int].pid
            == pid,
        r is None ==> slot(all@, pid) is None,
{
    proof {
        lemma_slot(all@, pid);
    }
    let mut end = all.len();
    while end > 0
        invariant
            end <= all@.len(),
            slot(all@, pid) == slot_before(all@, pid, end as int),
        decreases end,
    {
        if all[end - 1].pid == pid {
            return Some(end - 1);
        }
        end = end - 1;
    }
    None
}

/// Pids name distinct processes.
pub open spec fn pids_distinct(all: Seq<ProcessInfo>) -> bool {
    forall|i: int, j: int| 0 <= i < all.len() && 0 <= j < all.len() && i != j ==> all[i].pid != all[j].pid
}

/// With distinct pids, the slot of a listed process's pid is that process.
pub proof fn lemma_slot_of_own_pid(all: Seq<ProcessInfo>, i: int)
    requires
        pids_distinct(all),
        0 <= i < all.len(),
    ensures
        slot(all, all[i].pid) == Some(i),
{
    lemma_slot(all, all[i].pid);
}

// ---------------------------------------------------------------------
// Parent links
// ---------------------------------------------------------------------
/// The listed parent of process `i`: the process its ppid names, unless the
/// ppid is 0 or its own pid.
pub open spec fn up(all: Seq<ProcessInfo>, i: int) -> Option<int> {
    let q = all[i].ppid;
    if q == 0 || q == all[i].pid {
        None
    } else {
        slot(all, q)
    }
}

/// The listed parent of process `i`.
pub fn parent_slot(all: &Vec<ProcessInfo>, i: usize) -> (r: Option<usize>)
    requires
        i < all@.len(),
    ensures
        r matches Some(k) ==> up(all@, i as int) == Some(k as int) && k < all@.len(),
        r is None ==> up(all@, i as int) is None,
{
    let q = all[i].ppid;
    if q == 0 || q == all[i].pid {
        None
    } else {
        find_slot(all, q)
    }
}

/// The process `k` parent links above `i`.
pub open spec fn iter_up(all: Seq<ProcessInfo>, i: int, k: nat) -> Option<int>
    decreases k,
{
    if k == 0 {
        Some(i)
    } else {
        match iter_up(all, i, (k - 1) as nat) {
            Some(j) => up(all, j),
            None => None,
        }
    }
}

/// `anc` is `i` itself or lies above it by parent links.
pub open spec fn reaches(all: Seq<ProcessInfo>, i: int, anc: int) -> bool {
    exists|k: nat| iter_up(all, i, k) == Some(anc)
}

/// `x` is one of the entries of `r`.
pub open spec fn holds(r: Seq<usize>, x: int) -> bool {
    exists|k: int| 0 <= k < r.len() && r[k] as int == x
}

pub proof fn lemma_iter_up_shift(all: Seq<ProcessInfo>, i: int, a: nat, b: nat, m: nat)
    requires
        iter_up(all, i, a) == iter_up(all, i, b),
    ensures
        iter_up(all, i, a + m) == iter_up(all, i, b + m),
    decreases m,
{
    if m > 0 {
        lemma_iter_up_shift(all, i, a, b, (m - 1) as nat);
        assert((a + m - 1) as nat == a + (m - 1) as nat);
        assert((b + m - 1) as nat == b + (m - 1) as nat);
    }
}

pub proof fn lemma_iter_up_none(all: Seq<ProcessInfo>, i: int, a: nat, m: nat)
    requires
        iter_up(all, i, a) is None,
    ensures
        iter_up(all, i, a + m) is None,
    decreases m,
{
    if m > 0 {
        lemma_iter_up_none(all, i, a, (m - 1) as nat);
        assert((a + m - 1) as nat == a + (m - 1) as nat);
    }
}

/// Once the chain from `i` returns to an earlier point, everything on it
/// is among its first `t + 1` entries.
pub proof fn lemma_iter_up_cycle(all: Seq<ProcessInfo>, i: int, t: nat, s0: nat, k: nat)
    requires
        s0 <= t,
        iter_up(all, i, t + 1) == iter_up(all, i, s0),
    ensures
        exists|s: nat| s <= t && iter_up(all, i, k) == iter_up(all, i, s),
    decreases k,
{
    if k <= t {
        assert(iter_up(all, i, k) == iter_up(all, i, k));
    } else {
        let m: nat = (k - (t + 1)) as nat;
        lemma_iter_up_shift(all, i, t + 1, s0, m);
        assert(t + 1 + m == k);
        lemma_iter_up_cycle(all, i, t, s0, s0 + m);
    }
}

// ---------------------------------------------------------------------
// Counting marks
// ---------------------------------------------------------------------
/// The number of `true` entries.
pub open spec fn num_true(s: Seq<bool>) -> nat
    decreases s.len(),
{
    if s.len() == 0 {
        0
    } else {
        num_true(s.drop_last()) + if s.last() {
            1nat
        } else {
            0nat
        }
    }
}

proof fn lemma_num_true_le(s: Seq<bool>)
    ensures
        num_true(s) <= s.len(),
    decreases s.len(),
{
    if s.len() > 0 {
        lemma_num_true_le(s.drop_last());
    }
}

proof fn lemma_num_true_set(s: Seq<bool>, i: int)
    requires
        0 <= i < s.len(),
        !s[i],
    ensures
        num_true(s.update(i, true)) == num_true(s) + 1,
    decreases s.len(),
{
    let u = s.update(i, true);
    if i == s.len() - 1 {
        assert(u.drop_last() =~= s.drop_last());
    } else {
        lemma_num_true_set(s.drop_last(), i);
        assert(u.drop_last() =~= s.drop_last().update(i, true));
    }
}

/// `n` copies of `false`.
pub fn all_false(n: usize) -> (r: Vec<bool>)
    ensures
        r@.len() == n,
        forall|k: int| 0 <= k < n ==> !r@[k],
        num_true(r@) == 0,
{
    let mut r: Vec<bool> = Vec::new();
    let mut i: usize = 0;
    while i < n
        invariant
            i <= n,
            r@.len() == i,
            forall|k: int| 0 <= k < i ==> !r@[k],
            num_true(r@) == 0,
        decreases n - i,
    {
        let ghost prev = r@;
        r.push(false);
        proof {
            assert(r@.drop_last() =~= prev);
        }
        i = i + 1;
    }
    r
}

// ---------------------------------------------------------------------
// Ancestor chains
// ---------------------------------------------------------------------
/// The chain of processes from `start` upwards by parent links, each once:
/// exactly the processes that `start` reaches, in the order the links visit
/// them. A parent cycle ends the chain where it closes.
pub fn chain_from(all: &Vec<ProcessInfo>, start: usize) -> (r: Vec<usize>)
    requires
        start < all@.len(),
    ensures
        r@.len() >= 1,
        r@[0] == start,
        r@.no_duplicates(),
        forall|k: int|
            0 <= k < r@.len() ==> r@[k] < all@.len() && iter_up(all@, start as int, k as nat) == Some(
                r@[k] as int,
            ),
        forall|x: int| reaches(all@, start as int, x) <==> holds(r@, x),
{
    let n = all.len();
    let mut seen = all_false(n);
    proof {
        lemma_num_true_set(seen@, start as int);
    }
    seen.set(start, true);
    let mut r: Vec<usize> = Vec::new();
    r.push(start);
    let mut cur = start;
    assert(iter_up(all@, start as int, 0) == Some(start as int));
    loop
        invariant
            all@.len() == n,
            start < n,
            seen@.len() == n,
            r@.len() >= 1,
            r@[0] == start,
            cur == r@.last(),
            forall|k: int|
                0 <= k < r@.len() ==> r@[k] < n && iter_up(all@, start as int, k as nat) == Some(
                    r@[k] as int,
                ),
            forall|x: int| 0 <= x < n ==> (seen@[x] <==> holds(r@, x)),
            r@.no_duplicates(),
            num_true(seen@) == r@.len(),
        ensures
            r@.len() >= 1,
            r@[0] == start,
            cur == r@.last(),
            forall|k: int|
                0 <= k < r@.len() ==> r@[k] < n && iter_up(all@, start as int, k as nat) == Some(
                    r@[k] as int,
                ),
            r@.no_duplicates(),
            match up(all@, cur as int) {
                None => true,
                Some(nx) => holds(r@, nx),
            },
        decreases n - r@.len(),
    {
        proof {
            lemma_num_true_le(seen@);
        }
        match parent_slot(all, cur) {
            None => {
                break ;
            },
            Some(nx) => {
                if seen[nx] {
                    break ;
                }
                let ghost t = r@.len();
                let ghost old_r = r@;
                let ghost old_seen = seen@;
                proof {
                    lemma_num_true_set(seen@, nx as int);
                    assert(iter_up(all@, start as int, (t - 1) as nat) == Some(cur as int));
                    assert(iter_up(all@, start as int, t as nat) == up(all@, cur as int));
                }
                seen.set(nx, true);
                r.push(nx);
                cur = nx;
                proof {
                    lemma_num_true_le(seen@);
                    assert(r@ == old_r.push(nx));
                    assert forall|x: int| 0 <= x < n implies (seen@[x] <==> holds(r@, x)) by {
                        if holds(old_r, x) {
                            let k = choose|k: int| 0 <= k < old_r.len() && old_r[k] as int == x;
                            assert(r@[k] == old_r[k]);
                        }
                        if holds(r@, x) && x != nx {
                            let k = choose|k: int| 0 <= k < r@.len() && r@[k] as int == x;
                            assert(k < old_r.len());
                            assert(old_r[k] == r@[k]);
                        }
                        if x == nx {
                            assert(r@[t as int] == nx);
                        }
                    }
                    assert(!holds(old_r, nx as int));
                    assert forall|a: int, b: int|
                        0 <= a < r@.len() && 0 <= b < r@.len() && a != b implies r@[a] != r@[b] by {
                        if a < t && b < t {
                            assert(old_r.no_duplicates());
                        } else if a == t && b < t {
                            assert(old_r[b] == r@[b]);
                        } else if b == t && a < t {
                            assert(old_r[a] == r@[a]);
                        }
                    }
                }
            },
        }
    }
    proof {
        let t: nat = (r@.len() - 1) as nat;
        assert(iter_up(all@, start as int, t) == Some(cur as int));
        assert(iter_up(all@, start as int, t + 1) == up(all@, cur as int));
        assert forall|x: int| reaches(all@, start as int, x) implies holds(r@, x) by {
            let k = choose|k: nat| iter_up(all@, start as int, k) == Some(x);
            if k <= t {
                assert(r@[k as int] as int == x);
            } else {
                match up(all@, cur as int) {
                    None => {
                        lemma_iter_up_none(all@, start as int, t + 1, (k - (t + 1)) as nat);
                        assert(t + 1 + (k - (t + 1)) as nat == k);
                    },
                    Some(nx) => {
                        let s0 = choose|s0: int| 0 <= s0 < r@.len() && r@[s0] as int == nx;
                        lemma_iter_up_cycle(all@, start as int, t, s0 as nat, k);
                        let s = choose|s: nat| s <= t && iter_up(all@, start as int, k) == iter_up(
                            all@,
                            start as int,
                            s,
                        );
                        assert(r@[s as int] as int == x);
                    },
                }
            }
        }
        assert forall|x: int| holds(r@, x) implies reaches(all@, start as int, x) by {
            let k = choose|k: int| 0 <= k < r@.len() && r@[k] as int == x;
            assert(iter_up(all@, start as int, k as nat) == Some(x));
        }
    }
    r
}

/// Whether no pid occurs twice (`pids_distinct`).
pub fn has_distinct_pids(all: &Vec<ProcessInfo>) -> (r: bool)
    ensures
        r == pids_distinct(all@),
{
    let mut i: usize = 0;
    while i < all.len()
        invariant
            i <= all@.len(),
            forall|a: int, b: int| 0 <= a < i && 0 <= b < all@.len() && a != b ==> all@[a].pid
                != all@[b].pid,
        decreases all@.len() - i,
    {
        let mut j: usize = 0;
        while j < all.len()
            invariant
                i < all@.len(),
                j <= all@.len(),
                forall|a: int, b: int| 0 <= a < i && 0 <= b < all@.len() && a != b ==> all@[a].pid
                    != all@[b].pid,
                forall|b: int| 0 <= b < j && b != i ==> all@[i as int].pid != all@[b].pid,
            decreases all@.len() - j,
        {
            if j != i && all[i].pid == all[j].pid {
                return false;
            }
            j = j + 1;
        }
        i = i + 1;
    }
    true
}

} // verus!
