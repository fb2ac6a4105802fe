//! The process table: which rows it shows and in what order, and the
//! questions the table asks of the process tree.

use crate::data::config::{col_visible_spec, ProcessesConfig};
use crate::data::fuzzy::{best_fuzzy_score, best_score_spec, electron_text, fuzzy_match, fuzzy_matches};
use crate::data::model::{
    from_col_index_spec, Filter, FilterMode, FloatKeys, PidFilterMode, ProcessInfo,
    ResourceViewMode, SortColumn, SortDirection,
};
use crate::data::platform::linux::system::{
    is_service, is_service_spec, pids_named, pids_of_runsv, pids_of_supervise_daemon, InitSystem,
};
use crate::data::processes::lineage::{
    find_slot, has_distinct_pids, iter_up, lemma_slot, lemma_slot_of_own_pid, pids_distinct, reaches, slot, up,
};
use crate::data::processes::rank::{
    compare_keys, f32_value, f32_value_of, key_before, key_order, lemma_key_before_order, KeyView,
    Order, RowKey,
};
use crate::data::processes::totals::{
    count_below, counts_toward, descendant_tallies, first_up, mem_below, opt_int, subtree_totals,
    totals_fit, totals_within_range, vram_below, CumulativeResources,
};
use crate::text::{
    chars_of, contains_chars, contains_seq, decimal_i32, decimal_int, lowercase, to_lowercase,
};
use std::collections::{HashMap, HashSet};
use vstd::prelude::*;

verus! {

broadcast use vstd::std_specs::hash::group_hash_axioms;

/// What the user has chosen to see in the process table.
pub struct ViewState {
    /// Bumped whenever the choices change.
    pub generation: u64,
    pub filters: Vec<Filter>,
    pub filter_mode: FilterMode,
    pub pid_filter_mode: PidFilterMode,
    pub search: String,
    /// The column the rows are sorted by (1 name, 2 pid, 3 user, 4 state,
    /// 5 CPU, 6 memory, 7 VRAM, 8 disk read, 9 disk write).
    pub sort_col: usize,
    pub sort_dir: SortDirection,
    pub resource_view_mode: ResourceViewMode,
}

/// The process table over one snapshot of the processes.
pub struct ProcessTableDelegate {
    pub processes: Vec<ProcessInfo>,
    pub view_state: ViewState,
    pub column_visibility: ProcessesConfig,
    pub init_system: InitSystem,
    /// Order keys of the CPU and disk figures summed over each process's
    /// subtree, in list order; read when the cumulative view sorts by them.
    pub cumulative_keys: Vec<FloatKeys>,
}

impl Filter {
    /// A copy of the filter.
    pub fn duplicate(&self) -> (r: Filter)
        ensures
            r == *self,
    {
        match self {
            Filter::Gui => Filter::Gui,
            Filter::User => Filter::User,
            Filter::System => Filter::System,
            Filter::Services => Filter::Services,
            Filter::Kernel => Filter::Kernel,
            Filter::Parent => Filter::Parent,
            Filter::Vram => Filter::Vram,
            Filter::Electron => Filter::Electron,
            Filter::ProcessState(c) => Filter::ProcessState(*c),
            Filter::Username(s) => Filter::Username(s.clone()),
            Filter::Pid(p) => Filter::Pid(*p),
        }
    }
}

// ---------------------------------------------------------------------
// Walks by pid, at most 100 links
// ---------------------------------------------------------------------
/// Walks parent links by pid from `cur` for at most `fuel` steps looking
/// for `anc`; a pid that is not listed, a ppid of 0 or a process that is
/// its own parent ends the walk.
pub open spec fn desc_walk(all: Seq<ProcessInfo>, cur: i32, anc: i32, fuel: nat) -> bool
    decreases fuel,
{
    if fuel == 0 {
        false
    } else if cur == anc {
        true
    } else {
        match slot(all, cur) {
            Some(k) => {
                let p = all[k].ppid;
                if p == 0 || p == cur {
                    false
                } else {
                    desc_walk(all, p, anc, (fuel - 1) as nat)
                }
            },
            None => false,
        }
    }
}

/// `child` descends from `anc`, found within 100 parent links (a process
/// does not descend from itself).
pub open spec fn is_descendant_spec(all: Seq<ProcessInfo>, child: i32, anc: i32) -> bool {
    child != anc && desc_walk(all, child, anc, 100)
}

/// The slots met walking up from `cur` for at most `fuel` links, `cur`'s
/// own first.
pub open spec fn chain_slots(all: Seq<ProcessInfo>, cur: i32, fuel: nat) -> Seq<int>
    decreases fuel,
{
    if fuel == 0 {
        seq![]
    } else {
        match slot(all, cur) {
            None => seq![],
            Some(k) => {
                let p = all[k].ppid;
                seq![k] + if p == 0 || p == cur {
                    seq![]
                } else {
                    chain_slots(all, p, (fuel - 1) as nat)
                }
            },
        }
    }
}

/// The map from pid to ppid that inserting `all[..upto]` in order builds.
pub open spec fn ppid_map_upto(all: Seq<ProcessInfo>, upto: int) -> Map<i32, i32>
    decreases upto,
{
    if upto <= 0 {
        Map::empty()
    } else {
        ppid_map_upto(all, upto - 1).insert(all[upto - 1].pid, all[upto - 1].ppid)
    }
}

/// The pids of the processes among `all[..upto]` that descend from `pid`.
pub open spec fn descendant_pids_upto(all: Seq<ProcessInfo>, pid: i32, upto: int) -> Seq<i32>
    decreases upto,
{
    if upto <= 0 {
        seq![]
    } else if is_descendant_spec(all, all[upto - 1].pid, pid) {
        descendant_pids_upto(all, pid, upto - 1).push(all[upto - 1].pid)
    } else {
        descendant_pids_upto(all, pid, upto - 1)
    }
}

/// The pid of the first `Pid` filter.
pub open spec fn pinned_pid_spec(filters: Seq<Filter>) -> Option<i32>
    decreases filters.len(),
{
    if filters.len() == 0 {
        None
    } else {
        match filters[0] {
            Filter::Pid(p) => Some(p),
            _ => pinned_pid_spec(filters.drop_first()),
        }
    }
}

/// How many processes lie below the process that `pid` names (0 where it
/// names none).
pub open spec fn descendant_count_of(all: Seq<ProcessInfo>, pid: i32) -> nat {
    match slot(all, pid) {
        Some(k) => count_below(all, k),
        None => 0,
    }
}

/// The process `pid` names lies before `x` and has descendants.
pub open spec fn counted_before(all: Seq<ProcessInfo>, pid: i32, x: int) -> bool {
    match slot(all, pid) {
        Some(y) => y < x && count_below(all, y) > 0,
        None => false,
    }
}

/// The summed VRAM of the subtree of the process `pid` names.
pub open spec fn cum_vram_of(all: Seq<ProcessInfo>, pid: i32) -> Option<int> {
    match slot(all, pid) {
        Some(k) => vram_below(all, k),
        None => None,
    }
}

/// A list of subtree totals is the one `subtree_totals` gives.
pub open spec fn totals_match(all: Seq<ProcessInfo>, cum: Seq<CumulativeResources>) -> bool {
    &&& cum.len() == all.len()
    &&& forall|i: int|
        0 <= i < all.len() ==> cum[i].mem_rss == mem_below(all, i) && opt_int(cum[i].vram)
            == vram_below(all, i)
}

/// A slot node: the process its own pid names.
pub open spec fn is_slot_node(all: Seq<ProcessInfo>, x: int) -> bool {
    0 <= x < all.len() && slot(all, all[x].pid) == Some(x)
}

proof fn lemma_reached_is_slot_node(all: Seq<ProcessInfo>, f: int, k: nat)
    requires
        is_slot_node(all, f),
    ensures
        iter_up(all, f, k) matches Some(x) ==> is_slot_node(all, x),
    decreases k,
{
    if k > 0 {
        lemma_reached_is_slot_node(all, f, (k - 1) as nat);
        match iter_up(all, f, (k - 1) as nat) {
            Some(j) => {
                let q = all[j].ppid;
                lemma_slot(all, q);
            },
            None => {},
        }
    }
}

/// Only slot nodes are counted toward.
proof fn lemma_counted_is_slot_node(all: Seq<ProcessInfo>, x: int)
    requires
        0 <= x < all.len(),
        count_below(all, x) > 0,
    ensures
        is_slot_node(all, x),
{
    let n = all.len() as int;
    lemma_count_positive_witness(all, x, n);
    let p = choose|p: int| 0 <= p < n && counts_toward(all, p, x);
    let f = first_up(all, p).unwrap();
    lemma_slot(all, all[p].ppid);
    let k = choose|k: nat| iter_up(all, f, k) == Some(x);
    lemma_reached_is_slot_node(all, f, k);
}

proof fn lemma_count_positive_witness(all: Seq<ProcessInfo>, x: int, upto: int)
    requires
        0 <= upto <= all.len(),
        crate::data::processes::totals::count_below_upto(all, x, upto) > 0,
    ensures
        exists|p: int| 0 <= p < upto && counts_toward(all, p, x),
    decreases upto,
{
    if !counts_toward(all, upto - 1, x) {
        lemma_count_positive_witness(all, x, upto - 1);
    }
}

impl ProcessTableDelegate {
    // -----------------------------------------------------------------
    // Columns
    // -----------------------------------------------------------------
    /// Whether the table hides column `col_ix` (column 0 never hides; an
    /// index that names no column is not hidden).
    pub fn is_col_hidden(&self, col_ix: usize) -> (r: bool)
        ensures
            r == (col_ix != 0 && match from_col_index_spec(col_ix) {
                Some(c) => !col_visible_spec(self.column_visibility.columns@, c),
                None => false,
            }),
    {
        if col_ix == 0 {
            return false;
        }
        match SortColumn::from_col_index(col_ix) {
            Some(col) => !self.column_visibility.is_col_visible(col),
            None => false,
        }
    }

    // -----------------------------------------------------------------
    // Tree queries
    // -----------------------------------------------------------------
    /// Whether `child_pid` descends from `ancestor` (at most 100 parent
    /// links are followed; a process does not descend from itself).
    pub fn is_descendant_of(&self, child_pid: i32, ancestor: i32) -> (r: bool)
        ensures
            r == is_descendant_spec(self.processes@, child_pid, ancestor),
    {
        if child_pid == ancestor {
            return false;
        }
        let procs = &self.processes;
        let mut current = child_pid;
        let mut left: u32 = 100;
        while left > 0
            invariant
                child_pid != ancestor,
                procs@ == self.processes@,
                desc_walk(procs@, child_pid, ancestor, 100) == desc_walk(
                    procs@,
                    current,
                    ancestor,
                    left as nat,
                ),
            decreases left,
        {
            if current == ancestor {
                return true;
            }
            match find_slot(procs, current) {
                Some(idx) => {
                    let p = procs[idx].ppid;
                    if p == 0 || p == current {
                        return false;
                    }
                    current = p;
                },
                None => {
                    return false;
                },
            }
            left = left - 1;
        }
        false
    }

    /// The pids of the processes that descend from `pid`, in list order.
    pub fn descendant_pids_of(&self, pid: i32) -> (r: Vec<i32>)
        ensures
            r@ == descendant_pids_upto(self.processes@, pid, self.processes@.len() as int),
    {
        let mut r: Vec<i32> = Vec::new();
        let mut i: usize = 0;
        while i < self.processes.len()
            invariant
                i <= self.processes@.len(),
                r@ == descendant_pids_upto(self.processes@, pid, i as int),
            decreases self.processes@.len() - i,
        {
            if self.is_descendant_of(self.processes[i].pid, pid) {
                r.push(self.processes[i].pid);
            }
            i = i + 1;
        }
        r
    }

    /// The processes from the root of `target_pid`'s chain down to
    /// `target_pid` itself: at most 100 parent links are followed, from
    /// the process `target_pid` names (none where it names none).
    pub fn ancestor_chain_of(&self, target_pid: i32) -> (r: Vec<ProcessInfo>)
        ensures
            r@.len() == chain_slots(self.processes@, target_pid, 100).len(),
            forall|k: int|
                0 <= k < r@.len() ==> r@[k] == self.processes@[chain_slots(
                    self.processes@,
                    target_pid,
                    100,
                )[r@.len() - 1 - k]],
    {
        let procs = &self.processes;
        let ghost target = chain_slots(procs@, target_pid, 100);
        let mut idxs: Vec<usize> = Vec::new();
        let mut current = target_pid;
        let mut left: u32 = 100;
        let mut done = false;
        while !done && left > 0
            invariant
                idxs@.map_values(|k: usize| k as int) + (if done {
                    seq![]
                } else {
                    chain_slots(procs@, current, left as nat)
                }) == target,
                forall|k: int| 0 <= k < idxs@.len() ==> idxs@[k] < procs@.len(),
            decreases left,
        {
            let ghost before = idxs@;
            match find_slot(procs, current) {
                Some(idx) => {
                    idxs.push(idx);
                    let p = procs[idx].ppid;
                    proof {
                        assert(idxs@.map_values(|k: usize| k as int) =~= before.map_values(
                            |k: usize| k as int,
                        ).push(idx as int));
                    }
                    if p == 0 || p == current {
                        done = true;
                        proof {
                            assert(chain_slots(procs@, current, left as nat) =~= seq![idx as int]);
                        }
                    } else {
                        proof {
                            assert(chain_slots(procs@, current, left as nat) =~= seq![idx as int]
                                + chain_slots(procs@, p, (left - 1) as nat));
                        }
                        current = p;
                    }
                },
                None => {
                    done = true;
                },
            }
            left = left - 1;
        }
        assert(idxs@.map_values(|k: usize| k as int) =~= target);
        let mut r: Vec<ProcessInfo> = Vec::new();
        let mut j = idxs.len();
        while j > 0
            invariant
                j <= idxs@.len(),
                idxs@.len() == target.len(),
                forall|k: int| 0 <= k < idxs@.len() ==> idxs@[k] < procs@.len(),
                forall|k: int| 0 <= k < idxs@.len() ==> idxs@[k] as int == target[k],
                r@.len() == idxs@.len() - j,
                forall|k: int| 0 <= k < r@.len() ==> r@[k] == procs@[target[target.len() - 1 - k]],
            decreases j,
        {
            j = j - 1;
            r.push(procs[idxs[j]].duplicate());
        }
        r
    }

    /// The map from pid to ppid over all processes (the last process wins
    /// where two share a pid).
    pub fn pid_to_ppid_map(&self) -> (r: HashMap<i32, i32>)
        ensures
            r@ == ppid_map_upto(self.processes@, self.processes@.len() as int),
    {
        let mut m: HashMap<i32, i32> = HashMap::new();
        let mut i: usize = 0;
        while i < self.processes.len()
            invariant
                i <= self.processes@.len(),
                m@ == ppid_map_upto(self.processes@, i as int),
            decreases self.processes@.len() - i,
        {
            m.insert(self.processes[i].pid, self.processes[i].ppid);
            i = i + 1;
        }
        m
    }

    /// Counts, for every pid that has descendants, how many processes lie
    /// below it; pids without descendants have no entry.
    pub fn compute_descendant_counts(&self) -> (r: HashMap<i32, usize>)
        ensures
            forall|pid: i32|
                r@.contains_key(pid) == (descendant_count_of(self.processes@, pid) > 0),
            forall|pid: i32|
                r@.contains_key(pid) ==> r@[pid] as nat == descendant_count_of(
                    self.processes@,
                    pid,
                ),
    {
        let all = &self.processes;
        let tallies = descendant_tallies(all);
        let mut m: HashMap<i32, usize> = HashMap::new();
        let mut x: usize = 0;
        assert forall|pid: i32| !counted_before(all@, pid, 0) by {
            lemma_slot(all@, pid);
        }
        while x < all.len()
            invariant
                x <= all@.len(),
                tallies@.len() == all@.len(),
                forall|y: int| 0 <= y < all@.len() ==> tallies@[y] == count_below(all@, y),
                forall|pid: i32| m@.contains_key(pid) == counted_before(all@, pid, x as int),
                forall|pid: i32|
                    m@.contains_key(pid) ==> m@[pid] as nat == descendant_count_of(all@, pid),
            decreases all@.len() - x,
        {
            if tallies[x] > 0 {
                proof {
                    lemma_counted_is_slot_node(all@, x as int);
                }
                m.insert(all[x].pid, tallies[x]);
            }
            proof {
                assert forall|pid: i32| m@.contains_key(pid) == counted_before(all@, pid, x + 1) by {
                    lemma_slot(all@, pid);
                }
            }
            x = x + 1;
        }
        proof {
            assert forall|pid: i32|
                m@.contains_key(pid) == (descendant_count_of(all@, pid) > 0) by {
                lemma_slot(all@, pid);
            }
        }
        m
    }

    /// How many processes lie below the process `pid` names.
    pub fn count_descendants_of(&self, pid: i32) -> (r: usize)
        ensures
            r as nat == descendant_count_of(self.processes@, pid),
    {
        let tallies = descendant_tallies(&self.processes);
        match find_slot(&self.processes, pid) {
            Some(k) => tallies[k],
            None => 0,
        }
    }

    /// The memory and VRAM of every process summed over its subtree, by pid.
    pub fn compute_aggregate_cumulative_map(&self) -> (r: HashMap<i32, CumulativeResources>)
        requires
            pids_distinct(self.processes@),
            totals_fit(self.processes@),
        ensures
            forall|pid: i32| r@.contains_key(pid) == (slot(self.processes@, pid) is Some),
            forall|i: int|
                0 <= i < self.processes@.len() ==> r@.contains_key(self.processes@[i].pid)
                    && r@[self.processes@[i].pid].mem_rss == mem_below(self.processes@, i)
                    && opt_int(r@[self.processes@[i].pid].vram) == vram_below(self.processes@, i),
    {
        let all = &self.processes;
        let totals = subtree_totals(all);
        let mut m: HashMap<i32, CumulativeResources> = HashMap::new();
        let mut i: usize = 0;
        while i < all.len()
            invariant
                i <= all@.len(),
                pids_distinct(all@),
                totals@.len() == all@.len(),
                forall|y: int|
                    0 <= y < all@.len() ==> totals@[y].mem_rss == mem_below(all@, y) && opt_int(
                        totals@[y].vram,
                    ) == vram_below(all@, y),
                forall|pid: i32|
                    m@.contains_key(pid) == (exists|y: int| 0 <= y < i && all@[y].pid == pid),
                forall|y: int| 0 <= y < i ==> m@.contains_key(all@[y].pid) && m@[all@[y].pid] == totals@[y],
            decreases all@.len() - i,
        {
            m.insert(all[i].pid, totals[i]);
            proof {
                assert forall|pid: i32|
                    m@.contains_key(pid) == (exists|y: int| 0 <= y < i + 1 && all@[y].pid == pid) by {
                    if pid == all@[i as int].pid {
                        assert(all@[i as int].pid == pid);
                    }
                }
            }
            i = i + 1;
        }
        proof {
            assert forall|pid: i32| m@.contains_key(pid) == (slot(all@, pid) is Some) by {
                lemma_slot(all@, pid);
            }
        }
        m
    }

    // -----------------------------------------------------------------
    // View choices
    // -----------------------------------------------------------------
    /// How a pid filter selects processes.
    pub fn pid_filter_mode(&self) -> (r: PidFilterMode)
        ensures
            r == self.view_state.pid_filter_mode,
    {
        self.view_state.pid_filter_mode
    }

    /// The pid of the first pid filter, if any.
    pub fn pinned_pid(&self) -> (r: Option<i32>)
        ensures
            r == pinned_pid_spec(self.view_state.filters@),
    {
        let filters = &self.view_state.filters;
        let mut i: usize = 0;
        assert(filters@.skip(0) =~= filters@);
        while i < filters.len()
            invariant
                i <= filters@.len(),
                filters@ == self.view_state.filters@,
                pinned_pid_spec(filters@) == pinned_pid_spec(filters@.skip(i as int)),
            decreases filters@.len() - i,
        {
            assert(filters@.skip(i as int).drop_first() =~= filters@.skip(i + 1));
            assert(filters@.skip(i as int)[0] == filters@[i as int]);
            match filters[i] {
                Filter::Pid(p) => {
                    return Some(p);
                },
                _ => {},
            }
            i = i + 1;
        }
        assert(filters@.skip(i as int) =~= Seq::<Filter>::empty());
        None
    }
}


/// The rank of an optional VRAM figure: a missing one ranks below all.
pub open spec fn vram_rank(o: Option<int>) -> int {
    match o {
        Some(v) => v,
        None => -1,
    }
}

/// The first position at or after `k` in `o` whose process has `pid`.
pub open spec fn first_with_pid(all: Seq<ProcessInfo>, o: Seq<int>, pid: i32, k: int) -> Option<int>
    decreases o.len() - k,
{
    if k < 0 || k >= o.len() {
        None
    } else if all[o[k]].pid == pid {
        Some(k)
    } else {
        first_with_pid(all, o, pid, k + 1)
    }
}

/// Moves the first row of the pinned pid to the front.
pub open spec fn pin_spec(all: Seq<ProcessInfo>, o: Seq<int>, pinned: Option<i32>) -> Seq<int> {
    match pinned {
        None => o,
        Some(pid) => match first_with_pid(all, o, pid, 0) {
            Some(pos) => if pos > 0 {
                seq![o[pos]] + o.take(pos) + o.skip(pos + 1)
            } else {
                o
            },
            None => o,
        },
    }
}

/// Where `first_with_pid` finds a row, that row has the pid; where some
/// row at or after `k` has the pid, it finds one.
proof fn lemma_first_with_pid_found(all: Seq<ProcessInfo>, o: Seq<int>, pid: i32, k: int)
    requires
        0 <= k,
    ensures
        first_with_pid(all, o, pid, k) matches Some(p) ==> k <= p < o.len() && all[o[p]].pid == pid,
        (exists|w: int| k <= w < o.len() && #[trigger] all[o[w]].pid == pid) ==> first_with_pid(
            all,
            o,
            pid,
            k,
        ) is Some,
    decreases o.len() - k,
{
    if k < o.len() {
        lemma_first_with_pid_found(all, o, pid, k + 1);
        if all[o[k]].pid != pid && (exists|w: int| k <= w < o.len() && #[trigger] all[o[w]].pid == pid) {
            let w = choose|w: int| k <= w < o.len() && #[trigger] all[o[w]].pid == pid;
            assert(k + 1 <= w);
        }
    }
}

/// The filters hold a VRAM filter.
pub open spec fn has_vram_filter(filters: Seq<Filter>) -> bool {
    exists|k: int| 0 <= k < filters.len() && filters[k] is Vram
}

/// Indices as integers.
pub open spec fn as_ints(v: Seq<usize>) -> Seq<int> {
    v.map_values(|k: usize| k as int)
}

impl ProcessTableDelegate {
    // -----------------------------------------------------------------
    // Filters
    // -----------------------------------------------------------------
    /// The view sums figures over subtrees.
    pub open spec fn cumulative(&self) -> bool {
        self.view_state.resource_view_mode == ResourceViewMode::Cumulative
    }

    /// Whether process `p` meets filter `f`.
    pub open spec fn matches_spec(&self, p: ProcessInfo, f: Filter) -> bool {
        let all = self.processes@;
        match f {
            Filter::Gui => p.is_gui,
            Filter::User => p.is_owned_by_current_user && !p.is_gui,
            Filter::System => !p.is_kthread && !p.is_owned_by_current_user && p.ppid != 1,
            Filter::Services => is_service_spec(
                p,
                self.init_system,
                pids_named(all, "runsv"@),
                pids_named(all, "supervise-daemon"@),
            ),
            Filter::Kernel => p.is_kthread,
            Filter::Parent => p.has_children,
            Filter::Vram => if self.cumulative() {
                cum_vram_of(all, p.pid) is Some
            } else {
                p.vram_bytes is Some
            },
            Filter::Electron => p.is_electron,
            Filter::ProcessState(c) => p.state == c,
            Filter::Username(s) => p.user@ == s@,
            Filter::Pid(pid) => match self.view_state.pid_filter_mode {
                PidFilterMode::AllDescendants => p.pid == pid || is_descendant_spec(all, p.pid, pid),
                PidFilterMode::DirectChildren => p.pid == pid || p.ppid == pid,
            },
        }
    }

    /// Decides `matches_spec` with the service supervisors and subtree
    /// totals already gathered.
    fn matches_using(
        &self,
        p: &ProcessInfo,
        f: &Filter,
        totals: &Vec<CumulativeResources>,
        runsv: &HashSet<i32>,
        supervise: &HashSet<i32>,
    ) -> (r: bool)
        requires
            f is Services ==> runsv@ == pids_named(self.processes@, "runsv"@) && supervise@
                == pids_named(self.processes@, "supervise-daemon"@),
            f is Vram && self.cumulative() ==> totals_match(self.processes@, totals@),
        ensures
            r == self.matches_spec(*p, *f),
    {
        match f {
            Filter::Gui => p.is_gui,
            Filter::User => p.is_owned_by_current_user && !p.is_gui,
            Filter::System => !p.is_kthread && !p.is_owned_by_current_user && p.ppid != 1,
            Filter::Services => is_service(p, self.init_system, runsv, supervise),
            Filter::Kernel => p.is_kthread,
            Filter::Parent => p.has_children,
            Filter::Vram => {
                if self.view_state.resource_view_mode == ResourceViewMode::Cumulative {
                    match find_slot(&self.processes, p.pid) {
                        Some(k) => totals[k].vram.is_some(),
                        None => false,
                    }
                } else {
                    p.vram_bytes.is_some()
                }
            },
            Filter::Electron => p.is_electron,
            Filter::ProcessState(c) => p.state == *c,
            Filter::Username(s) => p.user == *s,
            Filter::Pid(pid) => match self.view_state.pid_filter_mode {
                PidFilterMode::AllDescendants => p.pid == *pid || self.is_descendant_of(p.pid, *pid),
                PidFilterMode::DirectChildren => p.pid == *pid || p.ppid == *pid,
            },
        }
    }

    /// Whether `proc` meets `filter`. Under the cumulative view a VRAM
    /// filter asks whether the subtree of the process that `proc`'s pid
    /// names has VRAM.
    pub fn proc_matches(&self, proc: &ProcessInfo, filter: &Filter) -> (r: bool)
        requires
            filter is Vram && self.cumulative() ==> pids_distinct(self.processes@) && totals_fit(
                self.processes@,
            ),
        ensures
            r == self.matches_spec(*proc, *filter),
    {
        let (runsv, supervise) = match filter {
            Filter::Services => (
                pids_of_runsv(self.processes.as_slice()),
                pids_of_supervise_daemon(self.processes.as_slice()),
            ),
            _ => (HashSet::new(), HashSet::new()),
        };
        let totals = match filter {
            Filter::Vram => if self.view_state.resource_view_mode == ResourceViewMode::Cumulative {
                subtree_totals(&self.processes)
            } else {
                Vec::new()
            },
            _ => Vec::new(),
        };
        self.matches_using(proc, filter, &totals, &runsv, &supervise)
    }

    /// The lowercased search text.
    pub open spec fn search_text(&self) -> Seq<char> {
        lowercase(self.view_state.search@)
    }

    /// A process matches the search: the search is empty, or it fuzzily
    /// matches the lowercased name, command or electron app name, or the
    /// decimal pid contains it.
    pub open spec fn search_matches(&self, p: ProcessInfo) -> bool {
        let s = self.search_text();
        s.len() == 0 || fuzzy_matches(s, lowercase(p.name@)) || contains_seq(
            decimal_int(p.pid as int),
            s,
        ) || fuzzy_matches(s, lowercase(p.command@)) || fuzzy_matches(
            s,
            lowercase(electron_text(p)),
        )
    }

    /// A process meets the filters: there are none, or it meets all of them
    /// (`And`) or one of them (`Or`).
    pub open spec fn filters_match(&self, p: ProcessInfo) -> bool {
        let fs = self.view_state.filters@;
        fs.len() == 0 || match self.view_state.filter_mode {
            FilterMode::And => forall|k: int| 0 <= k < fs.len() ==> self.matches_spec(p, fs[k]),
            FilterMode::Or => exists|k: int| 0 <= k < fs.len() && self.matches_spec(p, fs[k]),
        }
    }

    /// The table shows process `i`.
    pub open spec fn shows(&self, i: int) -> bool {
        self.search_matches(self.processes@[i]) && self.filters_match(self.processes@[i])
    }

    // -----------------------------------------------------------------
    // Sort keys
    // -----------------------------------------------------------------
    /// The figures of the sort column are summed over subtrees.
    pub open spec fn uses_cumulative_column(&self) -> bool {
        self.view_state.sort_col >= 5 && self.cumulative()
    }

    /// The number a row sorts by in the current column.
    pub open spec fn column_num(&self, i: int) -> int {
        let all = self.processes@;
        let p = all[i];
        let cum = self.uses_cumulative_column();
        let col = self.view_state.sort_col;
        if col == 2 {
            p.pid as int
        } else if col == 4 {
            p.state as int
        } else if col == 5 {
            if cum {
                self.cumulative_keys@[i].cpu as int
            } else {
                p.keys.cpu as int
            }
        } else if col == 6 {
            f32_value(
                if cum {
                    mem_below(all, i) as nat
                } else {
                    p.mem_rss as nat
                },
            ) as int
        } else if col == 7 {
            vram_rank(
                if cum {
                    vram_below(all, i)
                } else {
                    opt_int(p.vram_bytes)
                },
            )
        } else if col == 8 {
            if cum {
                self.cumulative_keys@[i].disk_read as int
            } else {
                p.keys.disk_read as int
            }
        } else if col == 9 {
            if cum {
                self.cumulative_keys@[i].disk_write as int
            } else {
                p.keys.disk_write as int
            }
        } else {
            0
        }
    }

    /// The text a row sorts by in the current column.
    pub open spec fn column_text(&self, i: int) -> Seq<char> {
        let p = self.processes@[i];
        if self.view_state.sort_col == 1 {
            lowercase(p.name@)
        } else if self.view_state.sort_col == 3 {
            lowercase(p.user@)
        } else {
            seq![]
        }
    }

    /// The sort key of process `i`.
    pub open spec fn key_of(&self, i: int) -> KeyView {
        KeyView {
            score: if self.search_text().len() == 0 {
                0
            } else {
                best_score_spec(self.search_text(), self.processes@[i]) as int
            },
            num: self.column_num(i),
            text: self.column_text(i),
        }
    }

    /// Rows sort descending.
    pub open spec fn desc(&self) -> bool {
        self.view_state.sort_dir == SortDirection::Descending
    }

    /// Process `i` sorts before process `j`.
    pub open spec fn before(&self, i: int, j: int) -> bool {
        key_before(self.key_of(i), i, self.key_of(j), j, self.desc())
    }

    /// `o` lists the shown processes, each once, in sort order.
    pub open spec fn sorted_rows(&self, o: Seq<int>) -> bool {
        &&& forall|a: int, b: int| 0 <= a < b < o.len() ==> self.before(o[a], o[b])
        &&& forall|a: int| 0 <= a < o.len() ==> 0 <= o[a] < self.processes@.len() && self.shows(o[a])
        &&& forall|i: int| 0 <= i < self.processes@.len() && self.shows(i) ==> o.contains(i)
    }

    /// A pid is pinned and some row of `v` is a process with that pid.
    pub open spec fn pin_shows(&self, v: Seq<int>) -> bool {
        match pinned_pid_spec(self.view_state.filters@) {
            Some(x) => exists|w: int| 0 <= w < v.len() && #[trigger] self.processes@[v[w]].pid == x,
            None => false,
        }
    }

    /// The shown processes in sort order.
    pub open spec fn sorted_order(&self) -> Seq<int> {
        choose|o: Seq<int>| self.sorted_rows(o)
    }

    /// The rows of the table, as indices into the process list: the sorted
    /// shown processes, with the first row of the pinned pid moved to the
    /// front.
    pub open spec fn visible_order(&self) -> Seq<int> {
        pin_spec(self.processes@, self.sorted_order(), pinned_pid_spec(self.view_state.filters@))
    }

    /// The inputs that the current view reads are present: subtree totals
    /// need distinct pids and sums that fit in 64 bits, and summed CPU and
    /// disk keys need one entry per process.
    pub open spec fn view_inputs_ready(&self) -> bool {
        let all = self.processes@;
        let col = self.view_state.sort_col;
        &&& (self.cumulative() && (col >= 5 || has_vram_filter(self.view_state.filters@)))
            ==> pids_distinct(all) && totals_fit(all)
        &&& (self.cumulative() && (col == 5 || col == 8 || col == 9)) ==> self.cumulative_keys@.len()
            == all.len()
    }
}


impl ProcessTableDelegate {
    // -----------------------------------------------------------------
    // The order of rows
    // -----------------------------------------------------------------
    /// `before` is a strict total order on distinct processes.
    pub proof fn lemma_before_order(&self, i: int, j: int, k: int)
        ensures
            !self.before(i, i),
            i != j ==> self.before(i, j) || self.before(j, i),
            self.before(i, j) ==> !self.before(j, i),
            self.before(i, j) && self.before(j, k) ==> self.before(i, k),
    {
        lemma_key_before_order(
            self.key_of(i),
            i,
            self.key_of(j),
            j,
            self.key_of(k),
            k,
            self.desc(),
        );
    }

    proof fn lemma_sorted_unique_core(&self, a: Seq<int>, b: Seq<int>)
        requires
            forall|x: int, y: int| 0 <= x < y < a.len() ==> self.before(a[x], a[y]),
            forall|x: int, y: int| 0 <= x < y < b.len() ==> self.before(b[x], b[y]),
            forall|v: int| a.contains(v) <==> b.contains(v),
        ensures
            a == b,
        decreases a.len(),
    {
        if a.len() == 0 {
            if b.len() > 0 {
                assert(b.contains(b[0]));
            }
            assert(a =~= b);
        } else if b.len() == 0 {
            assert(a.contains(a[0]));
        } else {
            let x = a[0];
            let y = b[0];
            if x != y {
                assert(a.contains(x));
                let jb = choose|jb: int| 0 <= jb < b.len() && b[jb] == x;
                assert(self.before(y, x));
                assert(b.contains(y));
                let ia = choose|ia: int| 0 <= ia < a.len() && a[ia] == y;
                assert(self.before(x, y));
                self.lemma_before_order(x, y, x);
            }
            let a2 = a.drop_first();
            let b2 = b.drop_first();
            assert forall|v: int| a2.contains(v) implies b2.contains(v) by {
                let k = choose|k: int| 0 <= k < a2.len() && a2[k] == v;
                assert(a[k + 1] == v);
                assert(self.before(a[0], a[k + 1]));
                self.lemma_before_order(x, x, x);
                assert(a.contains(v));
                let m = choose|m: int| 0 <= m < b.len() && b[m] == v;
                assert(m != 0);
                assert(b2[m - 1] == v);
            }
            assert forall|v: int| b2.contains(v) implies a2.contains(v) by {
                let k = choose|k: int| 0 <= k < b2.len() && b2[k] == v;
                assert(b[k + 1] == v);
                assert(self.before(b[0], b[k + 1]));
                self.lemma_before_order(x, x, x);
                assert(b.contains(v));
                let m = choose|m: int| 0 <= m < a.len() && a[m] == v;
                assert(m != 0);
                assert(a2[m - 1] == v);
            }
            assert forall|p: int, q: int| 0 <= p < q < a2.len() implies self.before(a2[p], a2[q]) by {
                assert(a2[p] == a[p + 1] && a2[q] == a[q + 1]);
            }
            assert forall|p: int, q: int| 0 <= p < q < b2.len() implies self.before(b2[p], b2[q]) by {
                assert(b2[p] == b[p + 1] && b2[q] == b[q + 1]);
            }
            self.lemma_sorted_unique_core(a2, b2);
            assert(a =~= seq![x] + a2);
            assert(b =~= seq![y] + b2);
        }
    }

    /// Moving the first row of the pinned pid to the front of a sorted list
    /// keeps each shown process exactly once, keeps the rows after the
    /// first in sort order, and puts a row of the pinned pid first where
    /// one shows, else the first row in sort order.
    proof fn lemma_pinned_rows(&self, o: Seq<int>)
        requires
            self.sorted_rows(o),
        ensures
            ({
                let v = pin_spec(self.processes@, o, pinned_pid_spec(self.view_state.filters@));
                &&& v.len() == o.len()
                &&& forall|i: int|
                    0 <= i < self.processes@.len() ==> (v.contains(i) <==> self.shows(i))
                &&& v.no_duplicates()
                &&& forall|a: int, b: int| 1 <= a < b < v.len() ==> self.before(v[a], v[b])
                &&& self.pin_shows(v) ==> (pinned_pid_spec(self.view_state.filters@) matches Some(x)
                    && self.processes@[v[0]].pid == x)
                &&& !self.pin_shows(v) ==> forall|b: int| 0 < b < v.len() ==> self.before(v[0], v[b])
            }),
    {
        let all = self.processes@;
        let pinned = pinned_pid_spec(self.view_state.filters@);
        let v = pin_spec(all, o, pinned);
        assert forall|a: int, b: int| 0 <= a < o.len() && 0 <= b < o.len() && a != b implies o[a]
            != o[b] by {
            self.lemma_before_order(o[a], o[a], o[a]);
            self.lemma_before_order(o[b], o[b], o[b]);
        }
        assert(o.no_duplicates());
        assert forall|i: int| 0 <= i < all.len() implies (o.contains(i) <==> self.shows(i)) by {
            if o.contains(i) {
                let w = choose|w: int| 0 <= w < o.len() && o[w] == i;
            }
        }
        match pinned {
            None => {
                assert(v == o);
            },
            Some(x) => {
                lemma_first_with_pid_found(all, o, x, 0);
                match first_with_pid(all, o, x, 0) {
                    None => {
                        assert(v == o);
                        if self.pin_shows(v) {
                            let w = choose|w: int| 0 <= w < v.len() && #[trigger] all[v[w]].pid == x;
                            assert(all[o[w]].pid == x);
                        }
                    },
                    Some(pos) => {
                        if pos == 0 {
                            assert(v == o);
                            assert(all[v[0]].pid == x);
                        } else {
                            let ix = |j: int| if j == 0 {
                                pos
                            } else if j - 1 < pos {
                                j - 1
                            } else {
                                j
                            };
                            assert(v.len() == o.len());
                            assert forall|j: int| 0 <= j < v.len() implies #[trigger] v[j] == o[ix(j)]
                                && 0 <= ix(j) < o.len() by {
                                if j == 0 {
                                } else if j - 1 < pos {
                                    assert(v[j] == o.take(pos)[j - 1]);
                                } else {
                                    assert(v[j] == o.skip(pos + 1)[j - 1 - pos]);
                                }
                            }
                            assert(all[v[0]].pid == x);
                            assert forall|i: int| 0 <= i < all.len() implies (v.contains(i)
                                <==> self.shows(i)) by {
                                if v.contains(i) {
                                    let j = choose|j: int| 0 <= j < v.len() && v[j] == i;
                                    assert(o[ix(j)] == i);
                                }
                                if self.shows(i) {
                                    let w = choose|w: int| 0 <= w < o.len() && o[w] == i;
                                    let j = if w == pos {
                                        0
                                    } else if w < pos {
                                        w + 1
                                    } else {
                                        w
                                    };
                                    assert(ix(j) == w);
                                    assert(v[j] == i);
                                }
                            }
                            assert forall|a: int, b: int|
                                0 <= a < v.len() && 0 <= b < v.len() && a != b implies v[a] != v[b] by {
                                assert(ix(a) != ix(b));
                            }
                            assert forall|a: int, b: int| 1 <= a < b < v.len() implies self.before(
                                v[a],
                                v[b],
                            ) by {
                                assert(ix(a) < ix(b));
                            }
                            assert(self.pin_shows(v)) by {
                                assert(all[v[0]].pid == x);
                            }
                        }
                    },
                }
            },
        }
    }

    /// The shown rows in sort order are determined: two lists that both
    /// hold each shown process once, in sort order, are the same.
    pub proof fn lemma_sorted_rows_unique(&self, a: Seq<int>, b: Seq<int>)
        requires
            self.sorted_rows(a),
            self.sorted_rows(b),
        ensures
            a == b,
    {
        assert forall|v: int| a.contains(v) <==> b.contains(v) by {
            if a.contains(v) {
                let k = choose|k: int| 0 <= k < a.len() && a[k] == v;
                assert(self.shows(a[k]));
            }
            if b.contains(v) {
                let k = choose|k: int| 0 <= k < b.len() && b[k] == v;
                assert(self.shows(b[k]));
            }
        }
        self.lemma_sorted_unique_core(a, b);
    }

    /// The sort key of process `i`.
    fn row_key(&self, i: usize, needle: &str, totals: &Vec<CumulativeResources>) -> (k: RowKey)
        requires
            i < self.processes@.len(),
            needle@ == self.search_text(),
            self.uses_cumulative_column() ==> totals_match(self.processes@, totals@),
            self.uses_cumulative_column() && (self.view_state.sort_col == 5
                || self.view_state.sort_col == 8 || self.view_state.sort_col == 9)
                ==> self.cumulative_keys@.len() == self.processes@.len(),
        ensures
            k@ == self.key_of(i as int),
    {
        let p = &self.processes[i];
        let score: u32 = if needle.is_empty() {
            0
        } else {
            best_fuzzy_score(needle, p)
        };
        let col = self.view_state.sort_col;
        let cum = col >= 5 && self.view_state.resource_view_mode == ResourceViewMode::Cumulative;
        let num: i128 = if col == 2 {
            p.pid as i128
        } else if col == 4 {
            p.state as u32 as i128
        } else if col == 5 {
            if cum {
                self.cumulative_keys[i].cpu as i128
            } else {
                p.keys.cpu as i128
            }
        } else if col == 6 {
            let m = if cum {
                totals[i].mem_rss
            } else {
                p.mem_rss
            };
            f32_value_of(m) as i128
        } else if col == 7 {
            let v = if cum {
                totals[i].vram
            } else {
                p.vram_bytes
            };
            match v {
                Some(x) => x as i128,
                None => -1,
            }
        } else if col == 8 {
            if cum {
                self.cumulative_keys[i].disk_read as i128
            } else {
                p.keys.disk_read as i128
            }
        } else if col == 9 {
            if cum {
                self.cumulative_keys[i].disk_write as i128
            } else {
                p.keys.disk_write as i128
            }
        } else {
            0
        };
        let text: Vec<char> = if col == 1 {
            chars_of(to_lowercase(p.name.as_str()).as_str())
        } else if col == 3 {
            chars_of(to_lowercase(p.user.as_str()).as_str())
        } else {
            Vec::new()
        };
        RowKey { score, num, text }
    }

    /// Decides `search_matches` for process `i`.
    fn search_matches_exec(&self, i: usize, needle: &str, needle_chars: &Vec<char>) -> (r: bool)
        requires
            i < self.processes@.len(),
            needle@ == self.search_text(),
            needle_chars@ == needle@,
        ensures
            r == self.search_matches(self.processes@[i as int]),
    {
        if needle.is_empty() {
            return true;
        }
        let p = &self.processes[i];
        let name = to_lowercase(p.name.as_str());
        if fuzzy_match(needle, name.as_str()) {
            return true;
        }
        if contains_chars(&decimal_i32(p.pid), needle_chars) {
            return true;
        }
        let command = to_lowercase(p.command.as_str());
        if fuzzy_match(needle, command.as_str()) {
            return true;
        }
        let electron = match &p.electron_app_name {
            Some(s) => to_lowercase(s.as_str()),
            None => {
                proof {
                    reveal_strlit("");
                    assert(""@ =~= Seq::<char>::empty());
                }
                to_lowercase("")
            },
        };
        fuzzy_match(needle, electron.as_str())
    }

    /// Decides `shows` for process `i`.
    fn shows_using(
        &self,
        i: usize,
        needle: &str,
        needle_chars: &Vec<char>,
        totals: &Vec<CumulativeResources>,
        runsv: &HashSet<i32>,
        supervise: &HashSet<i32>,
    ) -> (r: bool)
        requires
            i < self.processes@.len(),
            needle@ == self.search_text(),
            needle_chars@ == needle@,
            runsv@ == pids_named(self.processes@, "runsv"@),
            supervise@ == pids_named(self.processes@, "supervise-daemon"@),
            self.cumulative() && has_vram_filter(self.view_state.filters@) ==> totals_match(
                self.processes@,
                totals@,
            ),
        ensures
            r == self.shows(i as int),
    {
        if !self.search_matches_exec(i, needle, needle_chars) {
            return false;
        }
        let p = &self.processes[i];
        let fs = &self.view_state.filters;
        if fs.len() == 0 {
            return true;
        }
        let mut k: usize = 0;
        match self.view_state.filter_mode {
            FilterMode::And => {
                while k < fs.len()
                    invariant
                        k <= fs@.len(),
                        fs@ == self.view_state.filters@,
                        i < self.processes@.len(),
                        *p == self.processes@[i as int],
                        fs@.len() > 0,
                        self.search_matches(self.processes@[i as int]),
                        runsv@ == pids_named(self.processes@, "runsv"@),
                        supervise@ == pids_named(self.processes@, "supervise-daemon"@),
                        self.cumulative() && has_vram_filter(fs@) ==> totals_match(
                            self.processes@,
                            totals@,
                        ),
                        self.view_state.filter_mode == FilterMode::And,
                        forall|j: int| 0 <= j < k ==> self.matches_spec(*p, fs@[j]),
                    decreases fs@.len() - k,
                {
                    proof {
                        if fs@[k as int] is Vram {
                            assert(has_vram_filter(fs@));
                        }
                    }
                    if !self.matches_using(p, &fs[k], totals, runsv, supervise) {
                        assert(!self.matches_spec(self.processes@[i as int], fs@[k as int]));
                        assert(!self.filters_match(self.processes@[i as int]));
                        return false;
                    }
                    k = k + 1;
                }
                true
            },
            FilterMode::Or => {
                while k < fs.len()
                    invariant
                        k <= fs@.len(),
                        fs@ == self.view_state.filters@,
                        i < self.processes@.len(),
                        *p == self.processes@[i as int],
                        fs@.len() > 0,
                        self.search_matches(self.processes@[i as int]),
                        runsv@ == pids_named(self.processes@, "runsv"@),
                        supervise@ == pids_named(self.processes@, "supervise-daemon"@),
                        self.cumulative() && has_vram_filter(fs@) ==> totals_match(
                            self.processes@,
                            totals@,
                        ),
                        self.view_state.filter_mode == FilterMode::Or,
                        forall|j: int| 0 <= j < k ==> !self.matches_spec(*p, fs@[j]),
                    decreases fs@.len() - k,
                {
                    proof {
                        if fs@[k as int] is Vram {
                            assert(has_vram_filter(fs@));
                        }
                    }
                    if self.matches_using(p, &fs[k], totals, runsv, supervise) {
                        assert(self.matches_spec(self.processes@[i as int], fs@[k as int]));
                        assert(self.filters_match(self.processes@[i as int]));
                        return true;
                    }
                    k = k + 1;
                }
                false
            },
        }
    }
}


impl ProcessTableDelegate {
    /// Whether process `a` sorts before process `b`, by their keys.
    fn sorts_before(&self, keys: &Vec<RowKey>, a: usize, b: usize) -> (r: bool)
        requires
            a < keys@.len(),
            b < keys@.len(),
            keys@[a as int]@ == self.key_of(a as int),
            keys@[b as int]@ == self.key_of(b as int),
        ensures
            r == self.before(a as int, b as int),
    {
        let desc = match self.view_state.sort_dir {
            SortDirection::Descending => true,
            SortDirection::Ascending => false,
        };
        match compare_keys(&keys[a], &keys[b], desc) {
            Order::Less => true,
            Order::Equal => a < b,
            Order::Greater => false,
        }
    }

    /// The shown processes, each once, in sort order.
    fn sorted_row_order(&self) -> (r: Vec<usize>)
        requires
            self.view_inputs_ready(),
        ensures
            self.sorted_rows(as_ints(r@)),
            forall|k: int| 0 <= k < r@.len() ==> r@[k] < self.processes@.len(),
            self.view_state.search@.len() == 0 ==> self.search_text().len() == 0,
    {
        let all = &self.processes;
        let n = all.len();
        let lowered = to_lowercase(self.view_state.search.as_str());
        let needle = lowered.as_str();
        let needle_chars = chars_of(needle);
        let col = self.view_state.sort_col;
        let cum = self.view_state.resource_view_mode == ResourceViewMode::Cumulative;
        let mut vram_filter = false;
        let mut f: usize = 0;
        while f < self.view_state.filters.len()
            invariant
                f <= self.view_state.filters@.len(),
                vram_filter == exists|k: int| 0 <= k < f && self.view_state.filters@[k] is Vram,
            decreases self.view_state.filters@.len() - f,
        {
            if let Filter::Vram = self.view_state.filters[f] {
                vram_filter = true;
            }
            f = f + 1;
        }
        let totals = if cum && (col >= 5 || vram_filter) {
            subtree_totals(all)
        } else {
            Vec::new()
        };
        let runsv = pids_of_runsv(all.as_slice());
        let supervise = pids_of_supervise_daemon(all.as_slice());
        let mut keys: Vec<RowKey> = Vec::new();
        let mut order: Vec<usize> = Vec::new();
        let mut i: usize = 0;
        while i < n
            invariant
                i <= n,
                n == self.processes@.len(),
                *all == self.processes,
                needle@ == self.search_text(),
                needle_chars@ == needle@,
                runsv@ == pids_named(self.processes@, "runsv"@),
                supervise@ == pids_named(self.processes@, "supervise-daemon"@),
                self.cumulative() && has_vram_filter(self.view_state.filters@) ==> totals_match(
                    self.processes@,
                    totals@,
                ),
                self.uses_cumulative_column() ==> totals_match(self.processes@, totals@),
                self.view_inputs_ready(),
                keys@.len() == i,
                forall|j: int| 0 <= j < i ==> keys@[j]@ == self.key_of(j),
                forall|a: int, b: int|
                    0 <= a < b < order@.len() ==> self.before(order@[a] as int, order@[b] as int),
                forall|a: int| 0 <= a < order@.len() ==> order@[a] < i && self.shows(order@[a] as int),
                forall|j: int| 0 <= j < i && self.shows(j) ==> as_ints(order@).contains(j),
            decreases n - i,
        {
            let key = self.row_key(i, needle, &totals);
            keys.push(key);
            if self.shows_using(i, needle, &needle_chars, &totals, &runsv, &supervise) {
                let mut q: usize = 0;
                while q < order.len() && self.sorts_before(&keys, order[q], i)
                    invariant
                        q <= order@.len(),
                        i < keys@.len(),
                        forall|j: int| 0 <= j <= i ==> keys@[j]@ == self.key_of(j),
                        forall|a: int| 0 <= a < order@.len() ==> order@[a] < i,
                        forall|a: int| 0 <= a < q ==> self.before(order@[a] as int, i as int),
                    decreases order@.len() - q,
                {
                    q = q + 1;
                }
                let ghost old_order = order@;
                proof {
                    if q < old_order.len() {
                        self.lemma_before_order(old_order[q as int] as int, i as int, 0);
                        assert(self.before(i as int, old_order[q as int] as int));
                        assert forall|b: int| q <= b < old_order.len() implies self.before(
                            i as int,
                            old_order[b] as int,
                        ) by {
                            if b > q {
                                self.lemma_before_order(
                                    i as int,
                                    old_order[q as int] as int,
                                    old_order[b] as int,
                                );
                            }
                        }
                    }
                }
                order.insert(q, i);
                proof {
                    let no = order@;
                    assert(no == old_order.insert(q as int, i));
                    assert forall|a: int, b: int| 0 <= a < b < no.len() implies self.before(
                        no[a] as int,
                        no[b] as int,
                    ) by {
                        if b < q {
                            assert(no[a] == old_order[a] && no[b] == old_order[b]);
                        } else if b == q {
                            assert(no[a] == old_order[a]);
                        } else if a == q {
                            assert(no[b] == old_order[b - 1]);
                        } else if a < q {
                            assert(no[a] == old_order[a] && no[b] == old_order[b - 1]);
                        } else {
                            assert(no[a] == old_order[a - 1] && no[b] == old_order[b - 1]);
                        }
                    }
                    assert forall|a: int| 0 <= a < no.len() implies no[a] < i + 1 && self.shows(
                        no[a] as int,
                    ) by {
                        if a < q {
                            assert(no[a] == old_order[a]);
                        } else if a > q {
                            assert(no[a] == old_order[a - 1]);
                        }
                    }
                    assert forall|j: int| 0 <= j < i + 1 && self.shows(j) implies as_ints(
                        no,
                    ).contains(j) by {
                        if j == i {
                            assert(as_ints(no)[q as int] == j);
                        } else {
                            let k = choose|k: int| 0 <= k < old_order.len() && as_ints(old_order)[k] == j;
                            if k < q {
                                assert(as_ints(no)[k] == j);
                            } else {
                                assert(as_ints(no)[k + 1] == j);
                            }
                        }
                    }
                }
            } else {
                proof {
                    assert forall|j: int| 0 <= j < i + 1 && self.shows(j) implies as_ints(
                        order@,
                    ).contains(j) by {
                    }
                }
            }
            i = i + 1;
        }
        proof {
            let o = as_ints(order@);
            assert forall|a: int, b: int| 0 <= a < b < o.len() implies self.before(o[a], o[b]) by {
            }
            assert forall|a: int| 0 <= a < o.len() implies 0 <= o[a] < self.processes@.len()
                && self.shows(o[a]) by {
            }
        }
        order
    }

    /// The rows of the table as indices into the process list (see
    /// `visible_order`).
    pub fn visible_row_order(&self) -> (r: Vec<usize>)
        requires
            self.view_inputs_ready(),
        ensures
            as_ints(r@) == self.visible_order(),
            forall|k: int| 0 <= k < r@.len() ==> r@[k] < self.processes@.len(),
            forall|i: int|
                0 <= i < self.processes@.len() ==> (self.visible_order().contains(i)
                    <==> self.shows(i)),
            self.visible_order().no_duplicates(),
            forall|a: int, b: int|
                1 <= a < b < self.visible_order().len() ==> self.before(
                    self.visible_order()[a],
                    self.visible_order()[b],
                ),
            self.pin_shows(self.visible_order()) ==> (pinned_pid_spec(self.view_state.filters@) matches Some(x)
                && self.processes@[self.visible_order()[0]].pid == x),
            !self.pin_shows(self.visible_order()) ==> forall|b: int|
                0 < b < self.visible_order().len() ==> self.before(
                    self.visible_order()[0],
                    self.visible_order()[b],
                ),
            self.view_state.search@.len() == 0 ==> forall|i: int|
                0 <= i < self.processes@.len() ==> #[trigger] self.search_matches(self.processes@[i]),
    {
        let mut order = self.sorted_row_order();
        proof {
            let o = as_ints(order@);
            assert(self.sorted_rows(self.sorted_order()));
            self.lemma_sorted_rows_unique(o, self.sorted_order());
            self.lemma_pinned_rows(self.sorted_order());
        }
        let ghost sorted = as_ints(order@);
        match self.pinned_pid() {
            None => {},
            Some(pid) => {
                let mut pos: usize = 0;
                assert(first_with_pid(self.processes@, sorted, pid, 0) == first_with_pid(
                    self.processes@,
                    sorted,
                    pid,
                    pos as int,
                ));
                while pos < order.len() && self.processes[order[pos]].pid != pid
                    invariant
                        pos <= order@.len(),
                        sorted == as_ints(order@),
                        forall|k: int| 0 <= k < order@.len() ==> order@[k] < self.processes@.len(),
                        first_with_pid(self.processes@, sorted, pid, 0) == first_with_pid(
                            self.processes@,
                            sorted,
                            pid,
                            pos as int,
                        ),
                    decreases order@.len() - pos,
                {
                    pos = pos + 1;
                }
                if pos < order.len() && pos > 0 {
                    let x = order.remove(pos);
                    order.insert(0, x);
                    proof {
                        assert(as_ints(order@) =~= seq![sorted[pos as int]] + sorted.take(pos as int)
                            + sorted.skip(pos + 1));
                    }
                }
            },
        }
        order
    }

    /// The rows of the table: the processes that meet the search and the
    /// filters, sorted by the search score (when searching), then by the
    /// sort column in its direction, ties keeping list order; the first row
    /// of the pinned pid, if any, comes first.
    pub fn filtered_sorted_rows(&self) -> (r: Vec<ProcessInfo>)
        requires
            self.view_inputs_ready(),
        ensures
            r@.len() == self.visible_order().len(),
            forall|k: int|
                0 <= k < r@.len() ==> r@[k] == self.processes@[self.visible_order()[k]],
            forall|i: int|
                0 <= i < self.processes@.len() ==> (self.visible_order().contains(i)
                    <==> self.shows(i)),
            self.visible_order().no_duplicates(),
            forall|a: int, b: int|
                1 <= a < b < self.visible_order().len() ==> self.before(
                    self.visible_order()[a],
                    self.visible_order()[b],
                ),
            self.pin_shows(self.visible_order()) ==> (pinned_pid_spec(self.view_state.filters@) matches Some(x)
                && self.processes@[self.visible_order()[0]].pid == x),
            !self.pin_shows(self.visible_order()) ==> forall|b: int|
                0 < b < self.visible_order().len() ==> self.before(
                    self.visible_order()[0],
                    self.visible_order()[b],
                ),
            self.view_state.search@.len() == 0 ==> forall|i: int|
                0 <= i < self.processes@.len() ==> #[trigger] self.search_matches(self.processes@[i]),
    {
        let order = self.visible_row_order();
        let mut rows: Vec<ProcessInfo> = Vec::new();
        let mut k: usize = 0;
        while k < order.len()
            invariant
                k <= order@.len(),
                forall|j: int| 0 <= j < order@.len() ==> order@[j] < self.processes@.len(),
                rows@.len() == k,
                forall|j: int| 0 <= j < k ==> rows@[j] == self.processes@[order@[j] as int],
            decreases order@.len() - k,
        {
            rows.push(self.processes[order[k]].duplicate());
            k = k + 1;
        }
        rows
    }
}

impl ProcessTableDelegate {
    /// Whether the view can be computed (`view_inputs_ready`): in the
    /// cumulative view, sorting by a resource or filtering by VRAM needs
    /// distinct pids and totals that fit, and sorting by a measured rate
    /// needs one cumulative key per process.
    pub fn view_ready(&self) -> (r: bool)
        ensures
            r == self.view_inputs_ready(),
    {
        let cumulative = match self.view_state.resource_view_mode {
            ResourceViewMode::Cumulative => true,
            ResourceViewMode::SelfOnly => false,
        };
        if !cumulative {
            return true;
        }
        let col = self.view_state.sort_col;
        let mut vram_filter = false;
        let mut i: usize = 0;
        while i < self.view_state.filters.len()
            invariant
                i <= self.view_state.filters@.len(),
                vram_filter == exists|k: int| 0 <= k < i && self.view_state.filters@[k] is Vram,
            decreases self.view_state.filters@.len() - i,
        {
            if let Filter::Vram = self.view_state.filters[i] {
                vram_filter = true;
            }
            i = i + 1;
        }
        if col >= 5 || vram_filter {
            if !has_distinct_pids(&self.processes) || !totals_within_range(&self.processes) {
                return false;
            }
        }
        if col == 5 || col == 8 || col == 9 {
            return self.cumulative_keys.len() == self.processes.len();
        }
        true
    }
}

} // verus!
