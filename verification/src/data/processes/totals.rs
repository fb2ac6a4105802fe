//! Figures summed over process subtrees.

use crate::data::model::ProcessInfo;
use crate::data::processes::lineage::{
    chain_from, holds, lemma_slot, pids_distinct, reaches, slot,
};
use vstd::prelude::*;

verus! {

/// The memory and VRAM of a process together with all processes below it.
#[derive(Debug, Clone, Copy, PartialEq, Eq, Structural)]
pub struct CumulativeResources {
    pub mem_rss: u64,
    pub vram: Option<u64>,
}

/// An optional byte count as an optional integer.
pub open spec fn opt_int(o: Option<u64>) -> Option<int> {
    match o {
        Some(v) => Some(v as int),
        None => None,
    }
}

/// Adds optional figures: a missing one adds nothing, two missing stay
/// missing.
pub open spec fn opt_add(a: Option<int>, b: Option<int>) -> Option<int> {
    match a {
        Some(x) => match b {
            Some(y) => Some(x + y),
            None => Some(x),
        },
        None => b,
    }
}

/// The resident memory of the processes among `all[..upto]` that lie at or
/// below process `i`.
pub open spec fn mem_below_upto(all: Seq<ProcessInfo>, i: int, upto: int) -> int
    decreases upto,
{
    if upto <= 0 {
        0
    } else {
        mem_below_upto(all, i, upto - 1) + if reaches(all, upto - 1, i) {
            all[upto - 1].mem_rss as int
        } else {
            0
        }
    }
}

/// The VRAM of the processes among `all[..upto]` that lie at or below
/// process `i`; none where none of them has a VRAM figure.
pub open spec fn vram_below_upto(all: Seq<ProcessInfo>, i: int, upto: int) -> Option<int>
    decreases upto,
{
    if upto <= 0 {
        None
    } else if reaches(all, upto - 1, i) {
        opt_add(vram_below_upto(all, i, upto - 1), opt_int(all[upto - 1].vram_bytes))
    } else {
        vram_below_upto(all, i, upto - 1)
    }
}

/// The resident memory of process `i` and everything below it.
pub open spec fn mem_below(all: Seq<ProcessInfo>, i: int) -> int {
    mem_below_upto(all, i, all.len() as int)
}

/// The VRAM of process `i` and everything below it.
pub open spec fn vram_below(all: Seq<ProcessInfo>, i: int) -> Option<int> {
    vram_below_upto(all, i, all.len() as int)
}

/// The resident memory of `all[..upto]`.
pub open spec fn total_mem_upto(all: Seq<ProcessInfo>, upto: int) -> int
    decreases upto,
{
    if upto <= 0 {
        0
    } else {
        total_mem_upto(all, upto - 1) + all[upto - 1].mem_rss as int
    }
}

/// The VRAM of `all[..upto]`.
pub open spec fn total_vram_upto(all: Seq<ProcessInfo>, upto: int) -> int
    decreases upto,
{
    if upto <= 0 {
        0
    } else {
        total_vram_upto(all, upto - 1) + match all[upto - 1].vram_bytes {
            Some(v) => v as int,
            None => 0,
        }
    }
}

/// The sums over the whole list fit in 64 bits.
pub open spec fn totals_fit(all: Seq<ProcessInfo>) -> bool {
    total_mem_upto(all, all.len() as int) <= u64::MAX && total_vram_upto(all, all.len() as int)
        <= u64::MAX
}

proof fn lemma_totals_mono(all: Seq<ProcessInfo>, a: int, b: int)
    requires
        0 <= a <= b <= all.len(),
    ensures
        total_mem_upto(all, a) <= total_mem_upto(all, b),
        total_vram_upto(all, a) <= total_vram_upto(all, b),
    decreases b - a,
{
    if a < b {
        lemma_totals_mono(all, a, b - 1);
    }
}

proof fn lemma_below_le_total(all: Seq<ProcessInfo>, i: int, upto: int)
    requires
        0 <= upto <= all.len(),
    ensures
        0 <= mem_below_upto(all, i, upto) <= total_mem_upto(all, upto),
        0 <= total_vram_upto(all, upto),
        vram_below_upto(all, i, upto) matches Some(v) ==> 0 <= v <= total_vram_upto(all, upto),
    decreases upto,
{
    if upto > 0 {
        lemma_below_le_total(all, i, upto - 1);
    }
}

/// Adds optional byte counts.
fn add_opt(a: Option<u64>, b: Option<u64>) -> (r: Option<u64>)
    requires
        a is Some && b is Some ==> a.unwrap() + b.unwrap() <= u64::MAX,
    ensures
        opt_int(r) == opt_add(opt_int(a), opt_int(b)),
{
    match a {
        Some(x) => match b {
            Some(y) => Some(x + y),
            None => Some(x),
        },
        None => b,
    }
}

/// The memory and VRAM of every process summed over its subtree (the
/// process and all processes that lie below it), in list order.
pub fn subtree_totals(all: &Vec<ProcessInfo>) -> (r: Vec<CumulativeResources>)
    requires
        totals_fit(all@),
    ensures
        r@.len() == all@.len(),
        forall|i: int|
            0 <= i < all@.len() ==> r@[i].mem_rss == mem_below(all@, i) && opt_int(r@[i].vram)
                == vram_below(all@, i),
{
    let n = all.len();
    let mut mem: Vec<u64> = Vec::new();
    let mut vram: Vec<Option<u64>> = Vec::new();
    let mut k: usize = 0;
    while k < n
        invariant
            k <= n,
            n == all@.len(),
            mem@.len() == k,
            vram@.len() == k,
            forall|x: int| 0 <= x < k ==> mem@[x] == 0,
            forall|x: int| 0 <= x < k ==> vram@[x] is None,
        decreases n - k,
    {
        let ghost (m0, v0) = (mem@, vram@);
        mem.push(0);
        vram.push(None);
        assert(mem@ == m0.push(0u64) && vram@ == v0.push(None::<u64>));
        k = k + 1;
    }
    let mut j: usize = 0;
    while j < n
        invariant
            j <= n,
            n == all@.len(),
            mem@.len() == n,
            vram@.len() == n,
            totals_fit(all@),
            forall|x: int| 0 <= x < n ==> mem@[x] == mem_below_upto(all@, x, j as int),
            forall|x: int| 0 <= x < n ==> opt_int(vram@[x]) == vram_below_upto(all@, x, j as int),
        decreases n - j,
    {
        let chain = chain_from(all, j);
        let own_mem = all[j].mem_rss;
        let own_vram = all[j].vram_bytes;
        proof {
            lemma_totals_mono(all@, j + 1, n as int);
        }
        let mut c: usize = 0;
        assert forall|x: int| #[trigger] holds(chain@.take(0), x) == false by {}
        while c < chain.len()
            invariant
                c <= chain@.len(),
                j < n,
                n == all@.len(),
                mem@.len() == n,
                vram@.len() == n,
                own_mem == all@[j as int].mem_rss,
                own_vram == all@[j as int].vram_bytes,
                total_mem_upto(all@, j + 1) <= u64::MAX,
                total_vram_upto(all@, j + 1) <= u64::MAX,
                chain@.no_duplicates(),
                forall|k: int| 0 <= k < chain@.len() ==> chain@[k] < n,
                forall|x: int|
                    0 <= x < n ==> mem@[x] == mem_below_upto(all@, x, j as int) + if holds(
                        chain@.take(c as int),
                        x,
                    ) {
                        own_mem as int
                    } else {
                        0
                    },
                forall|x: int|
                    0 <= x < n ==> opt_int(vram@[x]) == if holds(chain@.take(c as int), x) {
                        opt_add(vram_below_upto(all@, x, j as int), opt_int(own_vram))
                    } else {
                        vram_below_upto(all@, x, j as int)
                    },
            decreases chain@.len() - c,
        {
            let x = chain[c];
            proof {
                assert(!holds(chain@.take(c as int), x as int)) by {
                    if holds(chain@.take(c as int), x as int) {
                        let k = choose|k: int|
                            0 <= k < c && #[trigger] chain@.take(c as int)[k] as int == x as int;
                        assert(chain@[k] == chain@[c as int]);
                    }
                }
                lemma_below_le_total(all@, x as int, j as int);
            }
            let m = mem[x] + own_mem;
            mem.set(x, m);
            let v = add_opt(vram[x], own_vram);
            vram.set(x, v);
            proof {
                assert forall|y: int| #[trigger] holds(chain@.take(c + 1), y) == (holds(chain@.take(c as int), y)
                    || y == x as int) by {
                    if holds(chain@.take(c + 1), y) {
                        let k = choose|k: int| 0 <= k < c + 1 && #[trigger] chain@.take(c + 1)[k] as int == y;
                        if k < c {
                            assert(chain@.take(c as int)[k] == chain@[k]);
                        }
                    }
                    if holds(chain@.take(c as int), y) {
                        let k = choose|k: int| 0 <= k < c && #[trigger] chain@.take(c as int)[k] as int == y;
                        assert(chain@.take(c + 1)[k] == chain@[k]);
                    }
                    if y == x as int {
                        assert(chain@.take(c + 1)[c as int] == x);
                    }
                }
            }
            c = c + 1;
        }
        proof {
            assert(chain@.take(chain@.len() as int) =~= chain@);
            assert forall|x: int| 0 <= x < n implies mem@[x] == mem_below_upto(all@, x, j + 1) by {
                assert(holds(chain@, x) == reaches(all@, j as int, x));
            }
            assert forall|x: int| 0 <= x < n implies opt_int(vram@[x]) == vram_below_upto(
                all@,
                x,
                j + 1,
            ) by {
                assert(holds(chain@, x) == reaches(all@, j as int, x));
            }
        }
        j = j + 1;
    }
    let mut r: Vec<CumulativeResources> = Vec::new();
    let mut i: usize = 0;
    while i < n
        invariant
            i <= n,
            n == all@.len(),
            mem@.len() == n,
            vram@.len() == n,
            r@.len() == i,
            forall|x: int| 0 <= x < n ==> mem@[x] == mem_below(all@, x),
            forall|x: int| 0 <= x < n ==> opt_int(vram@[x]) == vram_below(all@, x),
            forall|x: int|
                0 <= x < i ==> r@[x].mem_rss == mem_below(all@, x) && opt_int(r@[x].vram)
                    == vram_below(all@, x),
        decreases n - i,
    {
        r.push(CumulativeResources { mem_rss: mem[i], vram: vram[i] });
        i = i + 1;
    }
    r
}

// ---------------------------------------------------------------------
// Descendant counts
// ---------------------------------------------------------------------
/// Where the upward walk of a descendant count starts: the process the ppid
/// names (even a process's own pid), unless the ppid is 0.
pub open spec fn first_up(all: Seq<ProcessInfo>, p: int) -> Option<int> {
    let q = all[p].ppid;
    if q == 0 {
        None
    } else {
        slot(all, q)
    }
}

/// The upward walk from `p` counts process `x`.
pub open spec fn counts_toward(all: Seq<ProcessInfo>, p: int, x: int) -> bool {
    match first_up(all, p) {
        Some(f) => reaches(all, f, x),
        None => false,
    }
}

/// How many of `all[..upto]` count toward process `x`.
pub open spec fn count_below_upto(all: Seq<ProcessInfo>, x: int, upto: int) -> nat
    decreases upto,
{
    if upto <= 0 {
        0
    } else {
        count_below_upto(all, x, upto - 1) + if counts_toward(all, upto - 1, x) {
            1nat
        } else {
            0nat
        }
    }
}

/// How many processes count toward process `x`: those it lies above.
pub open spec fn count_below(all: Seq<ProcessInfo>, x: int) -> nat {
    count_below_upto(all, x, all.len() as int)
}

proof fn lemma_count_below_le(all: Seq<ProcessInfo>, x: int, upto: int)
    requires
        0 <= upto,
    ensures
        count_below_upto(all, x, upto) <= upto,
    decreases upto,
{
    if upto > 0 {
        lemma_count_below_le(all, x, upto - 1);
    }
}

/// Counts, for every process, the processes that lie below it.
pub fn descendant_tallies(all: &Vec<ProcessInfo>) -> (r: Vec<usize>)
    ensures
        r@.len() == all@.len(),
        forall|x: int| 0 <= x < all@.len() ==> r@[x] == count_below(all@, x),
{
    let n = all.len();
    let mut cnt: Vec<usize> = Vec::new();
    let mut k: usize = 0;
    while k < n
        invariant
            k <= n,
            cnt@.len() == k,
            forall|x: int| 0 <= x < k ==> cnt@[x] == 0,
        decreases n - k,
    {
        cnt.push(0);
        k = k + 1;
    }
    let mut p: usize = 0;
    while p < n
        invariant
            p <= n,
            n == all@.len(),
            cnt@.len() == n,
            forall|x: int| 0 <= x < n ==> cnt@[x] == count_below_upto(all@, x, p as int),
        decreases n - p,
    {
        let q = all[p].ppid;
        let start = if q == 0 {
            None
        } else {
            crate::data::processes::lineage::find_slot(all, q)
        };
        assert(start == None::<usize> ==> first_up(all@, p as int) is None);
        match start {
            None => {
                proof {
                    assert forall|x: int| 0 <= x < n implies cnt@[x] == count_below_upto(
                        all@,
                        x,
                        p + 1,
                    ) by {
                        assert(!counts_toward(all@, p as int, x));
                    }
                }
            },
            Some(f) => {
                let chain = chain_from(all, f);
                let mut c: usize = 0;
                assert forall|x: int| #[trigger] holds(chain@.take(0), x) == false by {}
                while c < chain.len()
                    invariant
                        c <= chain@.len(),
                        p < n,
                        n == all@.len(),
                        cnt@.len() == n,
                        chain@.no_duplicates(),
                        forall|k: int| 0 <= k < chain@.len() ==> chain@[k] < n,
                        forall|x: int|
                            0 <= x < n ==> cnt@[x] == count_below_upto(all@, x, p as int) + if holds(
                                chain@.take(c as int),
                                x,
                            ) {
                                1nat
                            } else {
                                0nat
                            },
                    decreases chain@.len() - c,
                {
                    let x = chain[c];
                    proof {
                        assert(!holds(chain@.take(c as int), x as int)) by {
                            if holds(chain@.take(c as int), x as int) {
                                let k = choose|k: int|
                                    0 <= k < c && #[trigger] chain@.take(c as int)[k] as int == x as int;
                                assert(chain@[k] == chain@[c as int]);
                            }
                        }
                        lemma_count_below_le(all@, x as int, p as int);
                    }
                    let v = cnt[x] + 1;
                    cnt.set(x, v);
                    proof {
                        assert forall|y: int| #[trigger] holds(chain@.take(c + 1), y) == (holds(
                            chain@.take(c as int),
                            y,
                        ) || y == x as int) by {
                            if holds(chain@.take(c + 1), y) {
                                let k = choose|k: int|
                                    0 <= k < c + 1 && #[trigger] chain@.take(c + 1)[k] as int == y;
                                if k < c {
                                    assert(chain@.take(c as int)[k] == chain@[k]);
                                }
                            }
                            if holds(chain@.take(c as int), y) {
                                let k = choose|k: int|
                                    0 <= k < c && #[trigger] chain@.take(c as int)[k] as int == y;
                                assert(chain@.take(c + 1)[k] == chain@[k]);
                            }
                            if y == x as int {
                                assert(chain@.take(c + 1)[c as int] == x);
                            }
                        }
                    }
                    c = c + 1;
                }
                proof {
                    assert(chain@.take(chain@.len() as int) =~= chain@);
                    assert(first_up(all@, p as int) == Some(f as int));
                    assert forall|x: int| 0 <= x < n implies cnt@[x] == count_below_upto(
                        all@,
                        x,
                        p + 1,
                    ) by {
                        assert(holds(chain@, x) == reaches(all@, f as int, x));
                    }
                }
            },
        }
        p = p + 1;
    }
    cnt
}

/// Whether the sums over the whole list fit in 64 bits (`totals_fit`).
pub fn totals_within_range(all: &Vec<ProcessInfo>) -> (r: bool)
    ensures
        r == totals_fit(all@),
{
    let mut mem: u64 = 0;
    let mut vram: u64 = 0;
    let mut i: usize = 0;
    while i < all.len()
        invariant
            i <= all@.len(),
            mem == total_mem_upto(all@, i as int),
            vram == total_vram_upto(all@, i as int),
        decreases all@.len() - i,
    {
        match mem.checked_add(all[i].mem_rss) {
            Some(m) => mem = m,
            None => {
                proof {
                    lemma_totals_mono(all@, i + 1, all@.len() as int);
                }
                return false;
            },
        }
        let v: u64 = match all[i].vram_bytes {
            Some(v) => v,
            None => 0,
        };
        match vram.checked_add(v) {
            Some(t) => vram = t,
            None => {
                proof {
                    lemma_totals_mono(all@, i + 1, all@.len() as int);
                }
                return false;
            },
        }
        i = i + 1;
    }
    true
}

} // verus!
