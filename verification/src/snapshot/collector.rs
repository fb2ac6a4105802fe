//! The arithmetic of a collector tick: CPU tick totals and their deltas,
//! memory figures, counter deltas of disks and interfaces, and the choice of
//! the CPU thermal zone.

use crate::collect::sat_sub;
use crate::data::model::MemoryInfo;
use crate::data::platform::linux::process_details::{
    chunks_from, lemma_chunks_split, lemma_zero_from, zero_from,
};
use crate::text::{chars_eq, chars_of, contains_chars, contains_seq, lowercase, to_lowercase, trim, trim_chars, string_of};
use vstd::prelude::*;

verus! {

/// How many usage samples a core keeps.
pub const HISTORY_LEN: usize = 60;

/// The tick counters of one line of `/proc/stat` (`procfs::CpuTime`).
#[derive(Debug, Clone, Copy, PartialEq, Eq, Structural)]
pub struct CpuTimes {
    pub user: u64,
    pub nice: u64,
    pub system: u64,
    pub idle: u64,
    pub iowait: Option<u64>,
    pub irq: Option<u64>,
    pub softirq: Option<u64>,
    pub steal: Option<u64>,
    pub guest: Option<u64>,
    pub guest_nice: Option<u64>,
}

/// A counter that may be missing, as a number (0 when missing).
pub open spec fn or_zero(o: Option<u64>) -> int {
    match o {
        Some(v) => v as int,
        None => 0,
    }
}

fn or_zero_exec(o: Option<u64>) -> (r: u64)
    ensures
        r == or_zero(o),
{
    match o {
        Some(v) => v,
        None => 0,
    }
}

/// The sum of the first `k` numbers.
pub open spec fn partial_sum(v: Seq<u64>, k: int) -> int
    decreases k,
{
    if k <= 0 {
        0
    } else {
        partial_sum(v, k - 1) + v[k - 1]
    }
}

proof fn lemma_partial_sum_mono(v: Seq<u64>, a: int, b: int)
    requires
        0 <= a <= b <= v.len(),
    ensures
        partial_sum(v, a) <= partial_sum(v, b),
    decreases b - a,
{
    if a < b {
        lemma_partial_sum_mono(v, a, b - 1);
    }
}

impl CpuTimes {
    /// All ticks: every counter summed.
    pub open spec fn total_spec(self) -> int {
        self.user + self.nice + self.system + self.idle + or_zero(self.iowait) + or_zero(self.irq)
            + or_zero(self.softirq) + or_zero(self.steal) + or_zero(self.guest) + or_zero(
            self.guest_nice,
        )
    }

    /// Idle ticks: idle and I/O wait.
    pub open spec fn idle_spec(self) -> int {
        self.idle + or_zero(self.iowait)
    }

    /// The sum of all counters fits in 64 bits.
    pub open spec fn fits(self) -> bool {
        self.total_spec() <= u64::MAX
    }

    /// Whether the sum of all counters fits in 64 bits (`fits`).
    pub fn within_range(&self) -> (r: bool)
        ensures
            r == self.fits(),
    {
        let parts: [u64; 10] = [
            self.user,
            self.nice,
            self.system,
            self.idle,
            or_zero_exec(self.iowait),
            or_zero_exec(self.irq),
            or_zero_exec(self.softirq),
            or_zero_exec(self.steal),
            or_zero_exec(self.guest),
            or_zero_exec(self.guest_nice),
        ];
        let mut sum: u64 = 0;
        let mut k: usize = 0;
        while k < 10
            invariant
                k <= 10,
                parts@.len() == 10,
                parts@ == seq![
                    self.user,
                    self.nice,
                    self.system,
                    self.idle,
                    or_zero(self.iowait) as u64,
                    or_zero(self.irq) as u64,
                    or_zero(self.softirq) as u64,
                    or_zero(self.steal) as u64,
                    or_zero(self.guest) as u64,
                    or_zero(self.guest_nice) as u64,
                ],
                sum == partial_sum(parts@, k as int),
            decreases 10 - k,
        {
            match sum.checked_add(parts[k]) {
                Some(t) => sum = t,
                None => {
                    proof {
                        lemma_partial_sum_mono(parts@, k + 1, 10);
                        assert(partial_sum(parts@, 10) == self.total_spec()) by {
                            reveal_with_fuel(partial_sum, 11);
                        }
                    }
                    return false;
                },
            }
            k = k + 1;
        }
        assert(partial_sum(parts@, 10) == self.total_spec()) by {
            reveal_with_fuel(partial_sum, 11);
        }
        true
    }

    /// All ticks and idle ticks.
    pub fn total_and_idle(&self) -> (r: (u64, u64))
        requires
            self.fits(),
        ensures
            r.0 == self.total_spec(),
            r.1 == self.idle_spec(),
    {
        let total = self.user + self.nice + self.system + self.idle + or_zero_exec(self.iowait)
            + or_zero_exec(self.irq) + or_zero_exec(self.softirq) + or_zero_exec(self.steal)
            + or_zero_exec(self.guest) + or_zero_exec(self.guest_nice);
        let idle = self.idle + or_zero_exec(self.iowait);
        (total, idle)
    }
}

/// The (total, idle) ticks of each line, the aggregate line first.
pub fn cpu_totals(times: &Vec<CpuTimes>) -> (r: Vec<(u64, u64)>)
    requires
        forall|i: int| 0 <= i < times@.len() ==> #[trigger] times@[i].fits(),
    ensures
        r@.len() == times@.len(),
        forall|i: int|
            0 <= i < r@.len() ==> #[trigger] r@[i] == (
                times@[i].total_spec() as u64,
                times@[i].idle_spec() as u64,
            ),
{
    let mut r: Vec<(u64, u64)> = Vec::new();
    let mut i: usize = 0;
    while i < times.len()
        invariant
            i <= times@.len(),
            forall|k: int| 0 <= k < times@.len() ==> #[trigger] times@[k].fits(),
            r@.len() == i,
            forall|k: int|
                0 <= k < i ==> #[trigger] r@[k] == (
                    times@[k].total_spec() as u64,
                    times@[k].idle_spec() as u64,
                ),
        decreases times@.len() - i,
    {
        let p = times[i].total_and_idle();
        r.push(p);
        i = i + 1;
    }
    r
}

/// The tick deltas of every line present at both ticks: (total, idle),
/// each counter's decrease read as 0.
pub open spec fn tick_deltas_spec(prev: Seq<(u64, u64)>, cur: Seq<(u64, u64)>) -> Seq<(u64, u64)> {
    let n = if cur.len() < prev.len() {
        cur.len()
    } else {
        prev.len()
    };
    Seq::new(
        n,
        |i: int| (sat_sub(cur[i].0 as int, prev[i].0 as int) as u64, sat_sub(cur[i].1 as int, prev[i].1 as int) as u64),
    )
}

/// The tick deltas between two ticks (see `tick_deltas_spec`); a core's
/// busy share is `(total - idle) / total` of its delta.
pub fn cpu_tick_deltas(prev: &Vec<(u64, u64)>, cur: &Vec<(u64, u64)>) -> (r: Vec<(u64, u64)>)
    ensures
        r@ == tick_deltas_spec(prev@, cur@),
{
    let mut r: Vec<(u64, u64)> = Vec::new();
    let mut i: usize = 0;
    while i < cur.len() && i < prev.len()
        invariant
            i <= cur@.len(),
            i <= prev@.len(),
            r@ =~= tick_deltas_spec(prev@, cur@).take(i as int),
        decreases cur@.len() - i,
    {
        let (t, d) = cur[i];
        let (pt, pd) = prev[i];
        r.push((t.saturating_sub(pt), d.saturating_sub(pd)));
        i = i + 1;
        assert(r@ =~= tick_deltas_spec(prev@, cur@).take(i as int));
    }
    assert(tick_deltas_spec(prev@, cur@).take(i as int) =~= tick_deltas_spec(prev@, cur@));
    r
}

/// How many cores to show when no usage could be computed yet: one per
/// per-core line (all lines but the aggregate one), at least one.
pub fn fallback_core_count(n_lines: usize) -> (r: usize)
    ensures
        r == (if n_lines <= 2 {
            1
        } else {
            n_lines - 1
        }),
{
    let n = n_lines.saturating_sub(1);
    if n < 1 {
        1
    } else {
        n
    }
}

/// Adds a sample to a core's history, dropping the oldest beyond
/// `HISTORY_LEN`.
pub fn push_history<T>(history: &mut Vec<T>, sample: T)
    ensures
        final(history)@ == (if old(history)@.len() + 1 > HISTORY_LEN {
            old(history)@.push(sample).drop_first()
        } else {
            old(history)@.push(sample)
        }),
{
    history.push(sample);
    if history.len() > HISTORY_LEN {
        history.remove(0);
        assert(history@ =~= old(history)@.push(sample).drop_first());
    }
}

// ---------------------------------------------------------------------
// Memory
// ---------------------------------------------------------------------
/// The figures of `/proc/meminfo` that the memory summary reads, in bytes
/// (`procfs::Meminfo`).
#[derive(Debug, Clone, Copy, PartialEq, Eq, Structural)]
pub struct MemCounters {
    pub mem_total: u64,
    pub mem_free: u64,
    pub mem_available: Option<u64>,
    pub buffers: u64,
    pub cached: u64,
    pub s_reclaimable: Option<u64>,
    pub swap_total: u64,
    pub swap_free: u64,
}

impl MemCounters {
    /// The page cache: `Cached` and `SReclaimable`.
    pub open spec fn cache_spec(self) -> int {
        self.cached + or_zero(self.s_reclaimable)
    }

    /// The sums that the summary makes fit in 64 bits.
    pub open spec fn fits(self) -> bool {
        self.mem_free + self.buffers + self.cache_spec() <= u64::MAX
    }

    /// The memory summary: used memory is the total less free, buffers and
    /// cache; swap in use is the swap total less free swap; both read as 0
    /// where the subtraction would go below.
    pub open spec fn summary_spec(self) -> MemoryInfo {
        MemoryInfo {
            total: self.mem_total,
            used: sat_sub(self.mem_total as int, self.mem_free + self.buffers + self.cache_spec())
                as u64,
            available: or_zero(self.mem_available) as u64,
            cached: self.cache_spec() as u64,
            swap_used: sat_sub(self.swap_total as int, self.swap_free as int) as u64,
        }
    }

    /// Whether the sums that the summary makes fit in 64 bits (`fits`).
    pub fn within_range(&self) -> (r: bool)
        ensures
            r == self.fits(),
    {
        match self.cached.checked_add(or_zero_exec(self.s_reclaimable)) {
            Some(cache) => match self.mem_free.checked_add(self.buffers) {
                Some(a) => a.checked_add(cache).is_some(),
                None => false,
            },
            None => false,
        }
    }

    /// The memory summary (see `summary_spec`).
    pub fn summary(&self) -> (r: MemoryInfo)
        requires
            self.fits(),
        ensures
            r == self.summary_spec(),
    {
        let cached = self.cached + or_zero_exec(self.s_reclaimable);
        let used = self.mem_total.saturating_sub(self.mem_free + self.buffers + cached);
        MemoryInfo {
            total: self.mem_total,
            used,
            available: or_zero_exec(self.mem_available),
            cached,
            swap_used: self.swap_total.saturating_sub(self.swap_free),
        }
    }
}

// ---------------------------------------------------------------------
// Disks and interfaces
// ---------------------------------------------------------------------
/// Index of the last entry named `name` (a map keeps the last insert).
pub open spec fn last_named(s: Seq<(String, u64, u64)>, name: Seq<char>) -> Option<int>
    decreases s.len(),
{
    if s.len() == 0 {
        None
    } else if s.last().0@ == name {
        Some(s.len() - 1)
    } else {
        last_named(s.drop_last(), name)
    }
}

/// Whether no entry after `i` has the name of entry `i`.
pub open spec fn is_last_of_name(s: Seq<(String, u64, u64)>, i: int) -> bool {
    forall|j: int| i < j < s.len() ==> #[trigger] s[j].0@ != s[i].0@
}

/// The rate input of the current entry `i`, when it is the last entry of
/// its name (a map keeps the last insert) and the name was present at the
/// previous tick: the name and the growth of both counters since the last
/// entry of that name there, a decrease read as 0.
pub open spec fn delta_at(prev: Seq<(String, u64, u64)>, cur: Seq<(String, u64, u64)>, i: int) -> Option<
    (Seq<char>, u64, u64),
> {
    if is_last_of_name(cur, i) {
        match last_named(prev, cur[i].0@) {
            Some(p) => Some(
                (
                    cur[i].0@,
                    sat_sub(cur[i].1 as int, prev[p].1 as int) as u64,
                    sat_sub(cur[i].2 as int, prev[p].2 as int) as u64,
                ),
            ),
            None => None,
        }
    } else {
        None
    }
}

/// The rate inputs of the first `n` current entries, in their order.
pub open spec fn counter_deltas_upto(
    prev: Seq<(String, u64, u64)>,
    cur: Seq<(String, u64, u64)>,
    n: int,
) -> Seq<(Seq<char>, u64, u64)>
    decreases n,
{
    if n <= 0 {
        seq![]
    } else {
        let rest = counter_deltas_upto(prev, cur, n - 1);
        match delta_at(prev, cur, n - 1) {
            Some(d) => rest.push(d),
            None => rest,
        }
    }
}

/// The name and counters of the triples, as plain values.
pub open spec fn delta_views(v: Seq<(String, u64, u64)>) -> Seq<(Seq<char>, u64, u64)> {
    v.map_values(|x: (String, u64, u64)| (x.0@, x.1, x.2))
}

/// Index of the last entry named `name`.
fn find_last_named(s: &Vec<(String, u64, u64)>, name: &Vec<char>) -> (r: Option<usize>)
    ensures
        r matches Some(k) ==> last_named(s@, name@) == Some(k as int) && k < s@.len(),
        r is None ==> last_named(s@, name@) is None,
{
    proof {
        lemma_last_named(s@, name@);
    }
    assert(s@.take(s@.len() as int) =~= s@);
    let mut j = s.len();
    while j > 0
        invariant
            j <= s@.len(),
            last_named(s@, name@) == last_named(s@.take(j as int), name@),
        decreases j,
    {
        proof {
            assert(s@.take(j as int).drop_last() =~= s@.take(j - 1));
            assert(s@.take(j as int).last() == s@[j - 1]);
        }
        if chars_eq(&chars_of(s[j - 1].0.as_str()), name) {
            return Some(j - 1);
        }
        j = j - 1;
    }
    assert(s@.take(0) =~= Seq::<(String, u64, u64)>::empty());
    None
}

/// The rates' inputs between two ticks of counters, such as disks' sector
/// bytes or interfaces' bytes (see `delta_at`).
pub fn counter_deltas(prev: &Vec<(String, u64, u64)>, cur: &Vec<(String, u64, u64)>) -> (r: Vec<
    (String, u64, u64),
>)
    ensures
        delta_views(r@) == counter_deltas_upto(prev@, cur@, cur@.len() as int),
{
    let mut r: Vec<(String, u64, u64)> = Vec::new();
    let mut i: usize = 0;
    while i < cur.len()
        invariant
            i <= cur@.len(),
            delta_views(r@) == counter_deltas_upto(prev@, cur@, i as int),
        decreases cur@.len() - i,
    {
        let name = chars_of(cur[i].0.as_str());
        let mut last = true;
        let mut j = i + 1;
        while j < cur.len()
            invariant
                i < j <= cur@.len(),
                name@ == cur@[i as int].0@,
                last == (forall|k: int| i < k < j ==> #[trigger] cur@[k].0@ != cur@[i as int].0@),
            decreases cur@.len() - j,
        {
            if chars_eq(&chars_of(cur[j].0.as_str()), &name) {
                last = false;
            }
            j = j + 1;
        }
        let ghost before = r@;
        if last {
            match find_last_named(prev, &name) {
                Some(p) => {
                    let (_, cr, cw) = &cur[i];
                    let (_, pr, pw) = &prev[p];
                    r.push((cur[i].0.clone(), cr.saturating_sub(*pr), cw.saturating_sub(*pw)));
                    assert(delta_views(r@) =~= delta_views(before).push(
                        delta_at(prev@, cur@, i as int).unwrap(),
                    ));
                },
                None => {},
            }
        }
        i = i + 1;
    }
    r
}

proof fn lemma_last_named(s: Seq<(String, u64, u64)>, name: Seq<char>)
    ensures
        last_named(s, name) matches Some(i) ==> 0 <= i < s.len() && s[i].0@ == name && forall|
            j: int,
        | i < j < s.len() ==> (#[trigger] s[j]).0@ != name,
        last_named(s, name) is None ==> forall|j: int| 0 <= j < s.len() ==> (#[trigger] s[j]).0@
            != name,
    decreases s.len(),
{
    if s.len() > 0 && s.last().0@ != name {
        let t = s.drop_last();
        lemma_last_named(t, name);
        assert forall|j: int| 0 <= j < s.len() - 1 implies s[j] == t[j] by {}
        match last_named(t, name) {
            Some(i) => {
                assert forall|j: int| i < j < s.len() implies (#[trigger] s[j]).0@ != name by {
                    if j < s.len() - 1 {
                        assert(s[j] == t[j]);
                    }
                }
            },
            None => {
                assert forall|j: int| 0 <= j < s.len() implies (#[trigger] s[j]).0@ != name by {
                    if j < s.len() - 1 {
                        assert(s[j] == t[j]);
                    }
                }
            },
        }
    }
}

// ---------------------------------------------------------------------
// Thermal zones
// ---------------------------------------------------------------------
/// A thermal zone type that names the CPU package.
pub open spec fn is_cpu_zone(t: Seq<char>) -> bool {
    contains_seq(t, "cpu"@) || contains_seq(t, "pkg"@) || contains_seq(t, "coretemp"@)
        || contains_seq(t, "k10temp"@) || contains_seq(t, "x86"@) || contains_seq(t, "soc"@)
}

/// A zone type as compared: trimmed, lower case.
pub open spec fn zone_key(raw: Seq<char>) -> Seq<char> {
    lowercase(trim(raw))
}

/// The first zone at or after `i` whose type names the CPU.
pub open spec fn first_cpu_zone(types: Seq<Seq<char>>, i: int) -> Option<int>
    decreases types.len() - i,
{
    if i < 0 || i >= types.len() {
        None
    } else if is_cpu_zone(zone_key(types[i])) {
        Some(i)
    } else {
        first_cpu_zone(types, i + 1)
    }
}

/// The zone whose temperature stands for the CPU: the first whose type
/// names the CPU, else the first zone.
pub open spec fn cpu_zone_spec(types: Seq<Seq<char>>) -> Option<int> {
    match first_cpu_zone(types, 0) {
        Some(k) => Some(k),
        None => if types.len() > 0 {
            Some(0)
        } else {
            None
        },
    }
}

/// Whether a zone type names the CPU.
fn is_cpu_zone_exec(t: &Vec<char>) -> (r: bool)
    ensures
        r == is_cpu_zone(t@),
{
    contains_chars(t, &chars_of("cpu")) || contains_chars(t, &chars_of("pkg")) || contains_chars(
        t,
        &chars_of("coretemp"),
    ) || contains_chars(t, &chars_of("k10temp")) || contains_chars(t, &chars_of("x86"))
        || contains_chars(t, &chars_of("soc"))
}

/// Picks the CPU's zone among the zones with a reading, given the text of
/// each zone's `type` file (see `cpu_zone_spec`).
pub fn pick_cpu_zone(zone_types: &Vec<String>) -> (r: Option<usize>)
    ensures
        match cpu_zone_spec(zone_types@.map_values(|s: String| s@)) {
            Some(k) => r == Some(k as usize),
            None => r is None,
        },
{
    let ghost ts = zone_types@.map_values(|s: String| s@);
    let mut i: usize = 0;
    while i < zone_types.len()
        invariant
            i <= zone_types@.len(),
            ts == zone_types@.map_values(|s: String| s@),
            first_cpu_zone(ts, 0) == first_cpu_zone(ts, i as int),
        decreases zone_types@.len() - i,
    {
        let t = trim_chars(&chars_of(zone_types[i].as_str()));
        let key = chars_of(to_lowercase(string_of(&t).as_str()).as_str());
        assert(ts[i as int] == zone_types@[i as int]@);
        if is_cpu_zone_exec(&key) {
            return Some(i);
        }
        i = i + 1;
    }
    if zone_types.len() > 0 {
        Some(0)
    } else {
        None
    }
}

// ---------------------------------------------------------------------
// Graphical sessions
// ---------------------------------------------------------------------
/// `DISPLAY=` as bytes.
pub open spec fn display_key() -> Seq<u8> {
    seq![68u8, 73u8, 83u8, 80u8, 76u8, 65u8, 89u8, 61u8]
}

/// `WAYLAND_DISPLAY=` as bytes.
pub open spec fn wayland_key() -> Seq<u8> {
    seq![87u8, 65u8, 89u8, 76u8, 65u8, 78u8, 68u8, 95u8].add(display_key())
}

/// `c` begins with `p`.
pub open spec fn bytes_prefix(c: Seq<u8>, p: Seq<u8>) -> bool {
    p.len() <= c.len() && c.subrange(0, p.len() as int) == p
}

/// An environment entry that sets `DISPLAY` or `WAYLAND_DISPLAY`.
pub open spec fn names_display(c: Seq<u8>) -> bool {
    bytes_prefix(c, display_key()) || bytes_prefix(c, wayland_key())
}

/// Some entry of an environment block (`/proc/<pid>/environ`) sets a
/// display: the process runs in a graphical session.
pub open spec fn has_display_spec(d: Seq<u8>) -> bool {
    exists|k: int|
        0 <= k < chunks_from(d, 0).len() && #[trigger] names_display(chunks_from(d, 0)[k])
}

fn bytes_prefix_exec(d: &[u8], lo: usize, hi: usize, p: &Vec<u8>) -> (r: bool)
    requires
        lo <= hi <= d@.len(),
    ensures
        r == bytes_prefix(d@.subrange(lo as int, hi as int), p@),
{
    if p.len() > hi - lo {
        return false;
    }
    let mut k: usize = 0;
    while k < p.len()
        invariant
            k <= p@.len(),
            p@.len() <= hi - lo,
            lo <= hi <= d@.len(),
            forall|m: int| 0 <= m < k ==> d@[lo + m] == p@[m],
        decreases p@.len() - k,
    {
        if d[lo + k] != p[k] {
            assert(d@.subrange(lo as int, hi as int).subrange(0, p@.len() as int)[k as int] != p@[k as int]);
            return false;
        }
        k = k + 1;
    }
    assert(d@.subrange(lo as int, hi as int).subrange(0, p@.len() as int) =~= p@);
    true
}

/// Whether an environment block sets a display (see `has_display_spec`).
pub fn has_display_var(environ: &[u8]) -> (r: bool)
    requires
        environ@.len() < usize::MAX,
    ensures
        r == has_display_spec(environ@),
{
    let display: Vec<u8> = vec![68u8, 73u8, 83u8, 80u8, 76u8, 65u8, 89u8, 61u8];
    let wayland: Vec<u8> = vec![
        87u8,
        65u8,
        89u8,
        76u8,
        65u8,
        78u8,
        68u8,
        95u8,
        68u8,
        73u8,
        83u8,
        80u8,
        76u8,
        65u8,
        89u8,
        61u8,
    ];
    assert(display@ =~= display_key());
    assert(wayland@ =~= wayland_key());
    let ghost d = environ@;
    let ghost all = chunks_from(d, 0);
    assert(Seq::<Seq<u8>>::empty() + chunks_from(d, 0) =~= all);
    let mut i: usize = 0;
    while i <= environ.len()
        invariant
            d == environ@,
            d.len() < usize::MAX,
            i <= d.len() + 1,
            display@ == display_key(),
            wayland@ == wayland_key(),
            all == chunks_from(d, 0),
            i <= d.len() ==> exists|pre: Seq<Seq<u8>>|
                pre + chunks_from(d, i as int) == all && forall|k: int|
                    0 <= k < pre.len() ==> !#[trigger] names_display(pre[k]),
            i > d.len() ==> forall|k: int| 0 <= k < all.len() ==> !#[trigger] names_display(all[k]),
        decreases d.len() + 1 - i,
    {
        proof {
            lemma_zero_from(d, i as int);
        }
        let mut j = i;
        while j < environ.len() && environ[j] != 0
            invariant
                i <= j <= d.len(),
                d == environ@,
                d.len() < usize::MAX,
                zero_from(d, i as int) == zero_from(d, j as int),
            decreases d.len() - j,
        {
            j = j + 1;
        }
        proof {
            lemma_chunks_split(d, i as int, j as int);
        }
        let ghost pre = choose|pre: Seq<Seq<u8>>|
            pre + chunks_from(d, i as int) == all && forall|k: int|
                0 <= k < pre.len() ==> !#[trigger] names_display(pre[k]);
        let ghost c = d.subrange(i as int, j as int);
        if bytes_prefix_exec(environ, i, j, &display) || bytes_prefix_exec(environ, i, j, &wayland) {
            proof {
                assert(all =~= pre + seq![c] + chunks_from(d, j + 1));
                assert(all[pre.len() as int] == c);
                assert(names_display(all[pre.len() as int]));
            }
            return true;
        }
        proof {
            let pre2 = pre.push(c);
            assert(pre2 + chunks_from(d, j + 1) =~= all);
            assert forall|k: int| 0 <= k < pre2.len() implies !#[trigger] names_display(pre2[k]) by {
                if k < pre.len() {
                    assert(pre2[k] == pre[k]);
                }
            }
            if j + 1 > d.len() {
                assert(chunks_from(d, j + 1) == Seq::<Seq<u8>>::empty());
                assert(pre2 =~= all);
            }
        }
        i = j + 1;
    }
    false
}

/// Whether the names of an environment include `DISPLAY` or
/// `WAYLAND_DISPLAY`.
pub fn has_display_var_from_env(names: &Vec<String>) -> (r: bool)
    ensures
        r == exists|k: int|
            0 <= k < names@.len() && (#[trigger] names@[k]@ == "DISPLAY"@ || names@[k]@
                == "WAYLAND_DISPLAY"@),
{
    let display = chars_of("DISPLAY");
    let wayland = chars_of("WAYLAND_DISPLAY");
    let mut i: usize = 0;
    while i < names.len()
        invariant
            i <= names@.len(),
            display@ == "DISPLAY"@,
            wayland@ == "WAYLAND_DISPLAY"@,
            forall|k: int|
                0 <= k < i ==> !(#[trigger] names@[k]@ == "DISPLAY"@ || names@[k]@
                    == "WAYLAND_DISPLAY"@),
        decreases names@.len() - i,
    {
        let n = chars_of(names[i].as_str());
        if chars_eq(&n, &display) || chars_eq(&n, &wayland) {
            return true;
        }
        i = i + 1;
    }
    false
}

/// What one collector tick does about GPUs.
#[derive(Debug, Clone, Copy, PartialEq, Eq, Structural)]
pub enum GpuPass {
    /// GPU data is switched off: no device is read.
    Skip,
    /// The system is probed for backends again, then devices are read.
    Detect,
    /// Devices are read with the backends found before.
    Reuse,
}

/// The GPU step of a tick: nothing while GPU data is off; a new probe while
/// no backend is known or a re-detect was requested; else the known
/// backends. The second part of the result says whether the pending
/// re-detect request is consumed (cleared): the request is looked at, and
/// so cleared, only when GPU data is on and backends are already known.
pub fn gpu_pass(enabled: bool, no_backends: bool, redetect_requested: bool) -> (r: (GpuPass, bool))
    ensures
        r.0 == (if !enabled {
            GpuPass::Skip
        } else if no_backends || redetect_requested {
            GpuPass::Detect
        } else {
            GpuPass::Reuse
        }),
        r.1 == (enabled && !no_backends),
{
    if !enabled {
        return (GpuPass::Skip, false);
    }
    if no_backends {
        return (GpuPass::Detect, false);
    }
    if redetect_requested {
        (GpuPass::Detect, true)
    } else {
        (GpuPass::Reuse, true)
    }
}

} // verus!
