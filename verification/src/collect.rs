//! Reading the text of `/proc`: `key: value` files, memory figures, CPU,
//! disk and network counters, process stat lines and command lines.

use crate::model::{MemoryInfo, ProcessInfo};
use crate::snapshot::processes::map_keys;
use std::collections::HashMap;
use crate::text::{
    chars_of, find, find_char_from, lemma_find_from_bounds, lines, lines_of, parse_i32_spec, parse_u64,
    parse_u64_spec, string_of, subvec, trim, trim_chars, views, words, words_of,
};
use vstd::prelude::*;

verus! {

broadcast use vstd::std_specs::hash::group_hash_axioms;

// ---------------------------------------------------------------------
// `key: value` files
// ---------------------------------------------------------------------
/// A `key: value` line split at its first colon, both sides trimmed.
pub open spec fn kv_of_line(l: Seq<char>) -> Option<(Seq<char>, Seq<char>)> {
    match find(l, ':') {
        Some(j) => Some((trim(l.subrange(0, j)), trim(l.subrange(j + 1, l.len() as int)))),
        None => None,
    }
}

/// The `key: value` pairs of some lines, in order.
pub open spec fn kv_pairs_of(ls: Seq<Seq<char>>) -> Seq<(Seq<char>, Seq<char>)>
    decreases ls.len(),
{
    if ls.len() == 0 {
        seq![]
    } else {
        let rest = kv_pairs_of(ls.drop_last());
        match kv_of_line(ls.last()) {
            Some(kv) => rest.push(kv),
            None => rest,
        }
    }
}

/// The `key: value` pairs of a text, in order.
pub open spec fn kv_spec(data: Seq<char>) -> Seq<(Seq<char>, Seq<char>)> {
    kv_pairs_of(lines(data))
}

/// The views of string pairs.
pub open spec fn pair_views(v: Seq<(String, String)>) -> Seq<(Seq<char>, Seq<char>)> {
    v.map_values(|p: (String, String)| (p.0@, p.1@))
}

/// The value that a map built from the pairs in order gives `key`: the
/// last pair with that key.
pub open spec fn kv_get(pairs: Seq<(Seq<char>, Seq<char>)>, key: Seq<char>) -> Option<Seq<char>>
    decreases pairs.len(),
{
    if pairs.len() == 0 {
        None
    } else if pairs.last().0 == key {
        Some(pairs.last().1)
    } else {
        kv_get(pairs.drop_last(), key)
    }
}

/// Splits a line at its first colon and trims both sides.
fn kv_line(l: &Vec<char>) -> (r: Option<(String, String)>)
    ensures
        match r {
            Some(p) => kv_of_line(l@) == Some((p.0@, p.1@)),
            None => kv_of_line(l@) is None,
        },
{
    proof {
        lemma_find_from_bounds(l@, ':', 0);
    }
    match find_char_from(l, ':', 0) {
        Some(j) => {
            let k = trim_chars(&subvec(l, 0, j));
            let v = trim_chars(&subvec(l, j + 1, l.len()));
            Some((string_of(&k), string_of(&v)))
        },
        None => None,
    }
}

/// The `key: value` pairs of a text, in order (a map built from them keeps
/// the last value of a key).
pub fn parse_kv(data: &str) -> (r: Vec<(String, String)>)
    ensures
        pair_views(r@) == kv_spec(data@),
{
    let ls = lines_of(&chars_of(data));
    let mut r: Vec<(String, String)> = Vec::new();
    let mut i: usize = 0;
    while i < ls.len()
        invariant
            i <= ls@.len(),
            views(ls@) == lines(data@),
            pair_views(r@) == kv_pairs_of(views(ls@).take(i as int)),
        decreases ls@.len() - i,
    {
        let ghost before = r@;
        proof {
            assert(views(ls@).take(i + 1).drop_last() =~= views(ls@).take(i as int));
            assert(views(ls@).take(i + 1).last() == ls@[i as int]@);
        }
        match kv_line(&ls[i]) {
            Some(p) => {
                r.push(p);
                assert(pair_views(r@) =~= pair_views(before).push((p.0@, p.1@)));
            },
            None => {},
        }
        i = i + 1;
    }
    assert(views(ls@).take(ls@.len() as int) =~= views(ls@));
    r
}

/// Looks `key` up as a map built from the pairs in order would.
pub fn kv_lookup(pairs: &Vec<(String, String)>, key: &str) -> (r: Option<String>)
    ensures
        match r {
            Some(v) => kv_get(pair_views(pairs@), key@) == Some(v@),
            None => kv_get(pair_views(pairs@), key@) is None,
        },
{
    let k = chars_of(key);
    let mut i = pairs.len();
    assert(pair_views(pairs@).take(i as int) =~= pair_views(pairs@));
    while i > 0
        invariant
            i <= pairs@.len(),
            k@ == key@,
            kv_get(pair_views(pairs@), key@) == kv_get(pair_views(pairs@).take(i as int), key@),
        decreases i,
    {
        let ghost pv = pair_views(pairs@).take(i as int);
        proof {
            assert(pv.drop_last() =~= pair_views(pairs@).take(i - 1));
            assert(pv.last() == (pairs@[i - 1].0@, pairs@[i - 1].1@));
        }
        if crate::text::chars_eq(&chars_of(pairs[i - 1].0.as_str()), &k) {
            return Some(pairs[i - 1].1.clone());
        }
        i = i - 1;
    }
    None
}

/// The first white-space separated word of `s` as an unsigned number.
pub open spec fn first_word_u64(s: Seq<char>) -> Option<u64> {
    if words(s).len() > 0 {
        parse_u64_spec(words(s)[0])
    } else {
        None
    }
}

/// Parses the first word of a value.
pub fn first_word_number(s: &str) -> (r: Option<u64>)
    ensures
        r == first_word_u64(s@),
{
    let ws = words_of(&chars_of(s));
    if ws.len() == 0 {
        return None;
    }
    assert(ws@[0]@ == views(ws@)[0]);
    parse_u64(&ws[0])
}

/// The number at the start of the value of `key`, 0 where there is none.
pub open spec fn kv_number(pairs: Seq<(Seq<char>, Seq<char>)>, key: Seq<char>) -> nat {
    match kv_get(pairs, key) {
        Some(v) => match first_word_u64(v) {
            Some(n) => n as nat,
            None => 0,
        },
        None => 0,
    }
}

/// The number at the start of the value of `key`, 0 where there is none.
pub fn kv_number_of(pairs: &Vec<(String, String)>, key: &str) -> (r: u64)
    ensures
        r == kv_number(pair_views(pairs@), key@),
{
    match kv_lookup(pairs, key) {
        Some(v) => match first_word_number(v.as_str()) {
            Some(n) => n,
            None => 0,
        },
        None => 0,
    }
}

/// The value of `key` in kB, as bytes.
pub fn kb_bytes(pairs: &Vec<(String, String)>, key: &str) -> (r: u64)
    requires
        kv_number(pair_views(pairs@), key@) * 1024 <= u64::MAX,
    ensures
        r == kv_number(pair_views(pairs@), key@) * 1024,
{
    kv_number_of(pairs, key) * 1024
}

// ---------------------------------------------------------------------
// Memory
// ---------------------------------------------------------------------
/// The bytes `/proc/meminfo` gives for `key`.
pub open spec fn meminfo_bytes(data: Seq<char>, key: Seq<char>) -> int {
    (kv_number(kv_spec(data), key) * 1024) as int
}

/// The page cache: `Cached` and `SReclaimable`.
pub open spec fn meminfo_cached(data: Seq<char>) -> int {
    meminfo_bytes(data, "Cached"@) + meminfo_bytes(data, "SReclaimable"@)
}

/// The figures of `/proc/meminfo` fit in 64 bits as bytes, sums included.
pub open spec fn meminfo_fits(data: Seq<char>) -> bool {
    &&& meminfo_bytes(data, "MemTotal"@) <= u64::MAX
    &&& meminfo_bytes(data, "MemAvailable"@) <= u64::MAX
    &&& meminfo_bytes(data, "SwapTotal"@) <= u64::MAX
    &&& meminfo_bytes(data, "SwapFree"@) <= u64::MAX
    &&& meminfo_bytes(data, "MemFree"@) + meminfo_bytes(data, "Buffers"@) + meminfo_cached(data)
        <= u64::MAX
}

/// `a - b`, or 0 where `b` is larger.
pub open spec fn sat_sub(a: int, b: int) -> int {
    if a >= b {
        a - b
    } else {
        0
    }
}

/// The memory figures of a `/proc/meminfo` text.
pub open spec fn meminfo_spec(data: Seq<char>) -> MemoryInfo {
    let total = meminfo_bytes(data, "MemTotal"@);
    let free = meminfo_bytes(data, "MemFree"@);
    let buffers = meminfo_bytes(data, "Buffers"@);
    let cached = meminfo_cached(data);
    let swap_total = meminfo_bytes(data, "SwapTotal"@);
    let swap_free = meminfo_bytes(data, "SwapFree"@);
    MemoryInfo {
        total: total as u64,
        used: sat_sub(total, free + buffers + cached) as u64,
        available: meminfo_bytes(data, "MemAvailable"@) as u64,
        free: free as u64,
        buffers: buffers as u64,
        cached: cached as u64,
        swap_total: swap_total as u64,
        swap_free: swap_free as u64,
        swap_used: sat_sub(swap_total, swap_free) as u64,
    }
}

/// The memory figures of a `/proc/meminfo` text, in bytes: the page cache
/// counts `Cached` and `SReclaimable`; used memory is the total less free,
/// buffers and cache; missing figures count 0.
pub fn memory_from_meminfo(data: &str) -> (r: MemoryInfo)
    requires
        meminfo_fits(data@),
    ensures
        r == meminfo_spec(data@),
{
    let map = parse_kv(data);
    let total = kb_bytes(&map, "MemTotal");
    let free = kb_bytes(&map, "MemFree");
    let buffers = kb_bytes(&map, "Buffers");
    let cached = kb_bytes(&map, "Cached") + kb_bytes(&map, "SReclaimable");
    let available = kb_bytes(&map, "MemAvailable");
    let used = total.saturating_sub(free + buffers + cached);
    let swap_total = kb_bytes(&map, "SwapTotal");
    let swap_free = kb_bytes(&map, "SwapFree");
    MemoryInfo {
        total,
        used,
        available,
        free,
        buffers,
        cached,
        swap_total,
        swap_free,
        swap_used: swap_total.saturating_sub(swap_free),
    }
}

// ---------------------------------------------------------------------
// CPU counters
// ---------------------------------------------------------------------
/// The words that parse as unsigned numbers, in order.
pub open spec fn numbers_of(ws: Seq<Seq<char>>) -> Seq<u64>
    decreases ws.len(),
{
    if ws.len() == 0 {
        seq![]
    } else {
        let rest = numbers_of(ws.drop_last());
        match parse_u64_spec(ws.last()) {
            Some(n) => rest.push(n),
            None => rest,
        }
    }
}

/// The sum of some numbers.
pub open spec fn sum_of(ns: Seq<u64>) -> int
    decreases ns.len(),
{
    if ns.len() == 0 {
        0
    } else {
        sum_of(ns.drop_last()) + ns.last()
    }
}

/// The numbers after the first word of a line.
pub open spec fn line_numbers(l: Seq<char>) -> Seq<u64> {
    if words(l).len() == 0 {
        seq![]
    } else {
        numbers_of(words(l).skip(1))
    }
}

/// A `cpu` line of `/proc/stat` with at least five numbers gives the total
/// of its numbers and its idle time (the fourth and fifth numbers: idle and
/// iowait).
pub open spec fn cpu_line(l: Seq<char>) -> Option<(int, int)> {
    let ns = line_numbers(l);
    if crate::text::starts_with(l, "cpu"@) && ns.len() >= 5 {
        Some((sum_of(ns), ns[3] + ns[4]))
    } else {
        None
    }
}

/// The totals of the `cpu` lines of some lines, in order.
pub open spec fn cpu_totals_of(ls: Seq<Seq<char>>) -> Seq<(int, int)>
    decreases ls.len(),
{
    if ls.len() == 0 {
        seq![]
    } else {
        let rest = cpu_totals_of(ls.drop_last());
        match cpu_line(ls.last()) {
            Some(t) => rest.push(t),
            None => rest,
        }
    }
}

/// The totals of every `cpu` line fit in 64 bits.
pub open spec fn cpu_totals_fit(data: Seq<char>) -> bool {
    forall|i: int|
        0 <= i < lines(data).len() ==> (#[trigger] cpu_line(lines(data)[i]) matches Some(t) ==> t.0
            <= u64::MAX)
}

/// Pairs of integers seen as integers.
pub open spec fn int_pairs(v: Seq<(u64, u64)>) -> Seq<(int, int)> {
    v.map_values(|p: (u64, u64)| (p.0 as int, p.1 as int))
}

proof fn lemma_sum_bounds(ns: Seq<u64>)
    ensures
        sum_of(ns) >= 0,
        forall|i: int, j: int| 0 <= i < j < ns.len() ==> ns[i] + ns[j] <= sum_of(ns),
        forall|i: int| 0 <= i < ns.len() ==> ns[i] <= sum_of(ns),
    decreases ns.len(),
{
    if ns.len() > 0 {
        let d = ns.drop_last();
        lemma_sum_bounds(d);
        assert forall|i: int, j: int| 0 <= i < j < ns.len() implies ns[i] + ns[j] <= sum_of(ns) by {
            assert(ns[i] == d[i]);
            if j < ns.len() - 1 {
                assert(ns[j] == d[j]);
            }
        }
        assert forall|i: int| 0 <= i < ns.len() implies ns[i] <= sum_of(ns) by {
            if i < ns.len() - 1 {
                assert(ns[i] == d[i]);
            }
        }
    }
}

/// The numbers among some words.
fn numbers_in(ws: &Vec<Vec<char>>, from: usize) -> (r: Vec<u64>)
    requires
        from <= ws@.len(),
    ensures
        r@ == numbers_of(views(ws@).skip(from as int)),
{
    let mut r: Vec<u64> = Vec::new();
    let mut i: usize = from;
    while i < ws.len()
        invariant
            from <= i <= ws@.len(),
            r@ == numbers_of(views(ws@).skip(from as int).take(i - from)),
        decreases ws@.len() - i,
    {
        proof {
            let t = views(ws@).skip(from as int).take(i + 1 - from);
            assert(t.drop_last() =~= views(ws@).skip(from as int).take(i - from));
            assert(t.last() == ws@[i as int]@);
        }
        match parse_u64(&ws[i]) {
            Some(n) => r.push(n),
            None => {},
        }
        i = i + 1;
    }
    assert(views(ws@).skip(from as int).take(ws@.len() - from) =~= views(ws@).skip(from as int));
    r
}

/// The total and idle ticks of each `cpu` line of a `/proc/stat` text, in
/// order: the first line is the sum over all cores, the others one core
/// each.
pub fn cpu_totals_from_stat(data: &str) -> (r: Vec<(u64, u64)>)
    requires
        cpu_totals_fit(data@),
    ensures
        int_pairs(r@) == cpu_totals_of(lines(data@)),
{
    let ls = lines_of(&chars_of(data));
    let cpu = chars_of("cpu");
    let mut r: Vec<(u64, u64)> = Vec::new();
    let mut i: usize = 0;
    while i < ls.len()
        invariant
            i <= ls@.len(),
            views(ls@) == lines(data@),
            cpu@ == "cpu"@,
            cpu_totals_fit(data@),
            int_pairs(r@) == cpu_totals_of(views(ls@).take(i as int)),
        decreases ls@.len() - i,
    {
        let ghost before = r@;
        let l = &ls[i];
        proof {
            assert(views(ls@).take(i + 1).drop_last() =~= views(ls@).take(i as int));
            assert(views(ls@).take(i + 1).last() == l@);
            assert(lines(data@)[i as int] == l@);
        }
        if crate::text::starts_with_chars(l, &cpu) {
            let ws = words_of(l);
            let ns = if ws.len() == 0 {
                Vec::new()
            } else {
                numbers_in(&ws, 1)
            };
            assert(ns@ == line_numbers(l@));
            if ns.len() >= 5 {
                proof {
                    lemma_sum_bounds(ns@);
                    assert(cpu_line(lines(data@)[i as int]) is Some);
                }
                let mut total: u64 = 0;
                let mut k: usize = 0;
                while k < ns.len()
                    invariant
                        k <= ns@.len(),
                        total == sum_of(ns@.take(k as int)),
                        sum_of(ns@) <= u64::MAX,
                    decreases ns@.len() - k,
                {
                    proof {
                        assert(ns@.take(k + 1).drop_last() =~= ns@.take(k as int));
                        lemma_sum_prefix(ns@, k + 1);
                    }
                    total = total + ns[k];
                    k = k + 1;
                }
                assert(ns@.take(ns@.len() as int) =~= ns@);
                let idle = ns[3] + ns[4];
                r.push((total, idle));
                assert(int_pairs(r@) =~= int_pairs(before).push((total as int, idle as int)));
            }
        }
        i = i + 1;
    }
    assert(views(ls@).take(ls@.len() as int) =~= views(ls@));
    r
}

proof fn lemma_sum_prefix(ns: Seq<u64>, k: int)
    requires
        0 <= k <= ns.len(),
    ensures
        sum_of(ns.take(k)) <= sum_of(ns),
        0 <= sum_of(ns.take(k)),
    decreases ns.len() - k,
{
    lemma_sum_bounds(ns.take(k));
    if k < ns.len() {
        lemma_sum_prefix(ns, k + 1);
        assert(ns.take(k + 1).drop_last() =~= ns.take(k));
    } else {
        assert(ns.take(k) =~= ns);
    }
}

// ---------------------------------------------------------------------
// Disk and network counters
// ---------------------------------------------------------------------
/// A word as a number, 0 where it is none.
pub open spec fn number_or_zero(w: Seq<char>) -> int {
    match parse_u64_spec(w) {
        Some(n) => n as int,
        None => 0,
    }
}

/// A `/proc/diskstats` line with at least 14 fields gives the device name
/// and the bytes read and written (sectors of 512 bytes).
pub open spec fn disk_line(l: Seq<char>) -> Option<(Seq<char>, int, int)> {
    let ps = words(l);
    if ps.len() >= 14 {
        Some((ps[2], number_or_zero(ps[5]) * 512, number_or_zero(ps[9]) * 512))
    } else {
        None
    }
}

/// The disk entries of some lines, in order.
pub open spec fn disks_of(ls: Seq<Seq<char>>) -> Seq<(Seq<char>, int, int)>
    decreases ls.len(),
{
    if ls.len() == 0 {
        seq![]
    } else {
        let rest = disks_of(ls.drop_last());
        match disk_line(ls.last()) {
            Some(d) => rest.push(d),
            None => rest,
        }
    }
}

/// The byte counts of every disk line fit in 64 bits.
pub open spec fn disks_fit(data: Seq<char>) -> bool {
    forall|i: int|
        0 <= i < lines(data).len() ==> (#[trigger] disk_line(lines(data)[i]) matches Some(d) ==> d.1
            <= u64::MAX && d.2 <= u64::MAX)
}

/// Counter entries seen as text and integers.
pub open spec fn counter_views(v: Seq<(String, u64, u64)>) -> Seq<(Seq<char>, int, int)> {
    v.map_values(|e: (String, u64, u64)| (e.0@, e.1 as int, e.2 as int))
}

/// A word as a number, 0 where it is none.
fn number_or_zero_of(w: &Vec<char>) -> (r: u64)
    ensures
        r as int == number_or_zero(w@),
{
    match parse_u64(w) {
        Some(n) => n,
        None => 0,
    }
}

/// The device name and bytes read and written of each `/proc/diskstats`
/// line with at least 14 fields, in order (a map built from them keeps the
/// last entry of a device).
pub fn disk_counters(data: &str) -> (r: Vec<(String, u64, u64)>)
    requires
        disks_fit(data@),
    ensures
        counter_views(r@) == disks_of(lines(data@)),
{
    let ls = lines_of(&chars_of(data));
    let mut r: Vec<(String, u64, u64)> = Vec::new();
    let mut i: usize = 0;
    while i < ls.len()
        invariant
            i <= ls@.len(),
            views(ls@) == lines(data@),
            disks_fit(data@),
            counter_views(r@) == disks_of(views(ls@).take(i as int)),
        decreases ls@.len() - i,
    {
        let ghost before = r@;
        proof {
            assert(views(ls@).take(i + 1).drop_last() =~= views(ls@).take(i as int));
            assert(views(ls@).take(i + 1).last() == ls@[i as int]@);
            assert(lines(data@)[i as int] == ls@[i as int]@);
        }
        let ps = words_of(&ls[i]);
        if ps.len() >= 14 {
            proof {
                assert(disk_line(lines(data@)[i as int]) is Some);
                assert(ps@[2]@ == views(ps@)[2] && ps@[5]@ == views(ps@)[5] && ps@[9]@ == views(
                    ps@,
                )[9]);
            }
            let read = number_or_zero_of(&ps[5]) * 512;
            let write = number_or_zero_of(&ps[9]) * 512;
            let name = string_of(&ps[2]);
            r.push((name, read, write));
            assert(counter_views(r@) =~= counter_views(before).push(
                (name@, read as int, write as int),
            ));
        }
        i = i + 1;
    }
    assert(views(ls@).take(ls@.len() as int) =~= views(ls@));
    r
}

/// `s` without its trailing colons.
pub open spec fn trim_end_colons(s: Seq<char>) -> Seq<char>
    decreases s.len(),
{
    if s.len() > 0 && s.last() == ':' {
        trim_end_colons(s.drop_last())
    } else {
        s
    }
}

/// A `/proc/net/dev` line with at least 10 fields gives the interface
/// name and the bytes received and sent.
pub open spec fn net_line(l: Seq<char>) -> Option<(Seq<char>, int, int)> {
    let ps = words(l);
    if ps.len() >= 10 {
        Some((trim_end_colons(ps[0]), number_or_zero(ps[1]), number_or_zero(ps[9])))
    } else {
        None
    }
}

/// The interface entries of some lines, in order.
pub open spec fn nets_of(ls: Seq<Seq<char>>) -> Seq<(Seq<char>, int, int)>
    decreases ls.len(),
{
    if ls.len() == 0 {
        seq![]
    } else {
        let rest = nets_of(ls.drop_last());
        match net_line(ls.last()) {
            Some(d) => rest.push(d),
            None => rest,
        }
    }
}

/// The lines after the two header lines.
pub open spec fn body_lines(data: Seq<char>) -> Seq<Seq<char>> {
    if lines(data).len() >= 2 {
        lines(data).skip(2)
    } else {
        seq![]
    }
}

/// Removes the trailing colons of a word.
fn trim_colons(w: &Vec<char>) -> (r: Vec<char>)
    ensures
        r@ == trim_end_colons(w@),
{
    let mut e = w.len();
    assert(w@.take(e as int) =~= w@);
    while e > 0 && w[e - 1] == ':'
        invariant
            e <= w@.len(),
            trim_end_colons(w@) == trim_end_colons(w@.take(e as int)),
        decreases e,
    {
        assert(w@.take(e as int).drop_last() =~= w@.take(e - 1));
        e = e - 1;
    }
    let r = subvec(w, 0, e);
    assert(r@ =~= w@.take(e as int));
    r
}

/// The interface name and bytes received and sent of each `/proc/net/dev`
/// line after the two header lines that has at least 10 fields, in order.
pub fn net_counters(data: &str) -> (r: Vec<(String, u64, u64)>)
    ensures
        counter_views(r@) == nets_of(body_lines(data@)),
{
    let ls = lines_of(&chars_of(data));
    let mut r: Vec<(String, u64, u64)> = Vec::new();
    if ls.len() < 2 {
        return r;
    }
    let ghost body = views(ls@).skip(2);
    let mut i: usize = 2;
    while i < ls.len()
        invariant
            2 <= i <= ls@.len(),
            views(ls@) == lines(data@),
            body == views(ls@).skip(2),
            counter_views(r@) == nets_of(body.take(i - 2)),
        decreases ls@.len() - i,
    {
        let ghost before = r@;
        proof {
            assert(body.take(i + 1 - 2).drop_last() =~= body.take(i - 2));
            assert(body.take(i + 1 - 2).last() == ls@[i as int]@);
        }
        let ps = words_of(&ls[i]);
        if ps.len() >= 10 {
            proof {
                assert(ps@[0]@ == views(ps@)[0] && ps@[1]@ == views(ps@)[1] && ps@[9]@ == views(
                    ps@,
                )[9]);
            }
            let name = string_of(&trim_colons(&ps[0]));
            let rx = number_or_zero_of(&ps[1]);
            let tx = number_or_zero_of(&ps[9]);
            r.push((name, rx, tx));
            assert(counter_views(r@) =~= counter_views(before).push(
                (name@, rx as int, tx as int),
            ));
        }
        i = i + 1;
    }
    assert(body.take(ls@.len() - 2) =~= body);
    r
}

// ---------------------------------------------------------------------
// Process stat lines and command lines
// ---------------------------------------------------------------------
/// The fields of a `/proc/<pid>/stat` line: the command name between the
/// first `(` and the first `)`, then, among the words that follow the
/// character after the `)`, the state (first character of the first
/// word), the ppid (second word) and the user, system, children's user and
/// children's system ticks (words 12 to 15). Missing or malformed fields
/// give nothing.
pub open spec fn stat_spec(data: Seq<char>) -> Option<(Seq<char>, char, i32, u64, u64, u64, u64)> {
    match (find(data, '('), find(data, ')')) {
        (Some(o), Some(c)) => {
            let comm = data.subrange(o + 1, c);
            let ps = words(data.subrange(c + 2, data.len() as int));
            if ps.len() < 15 {
                None
            } else {
                match (
                    parse_i32_spec(ps[1]),
                    parse_u64_spec(ps[11]),
                    parse_u64_spec(ps[12]),
                    parse_u64_spec(ps[13]),
                    parse_u64_spec(ps[14]),
                ) {
                    (Some(ppid), Some(u), Some(s), Some(cu), Some(cs)) => Some(
                        (comm, ps[0][0], ppid, u, s, cu, cs),
                    ),
                    _ => None,
                }
            }
        },
        _ => None,
    }
}

/// Slicing the stat line at its parentheses is well defined: the `)` comes
/// after the `(` and is followed by at least one more ASCII character.
pub open spec fn stat_slices_ok(data: Seq<char>) -> bool {
    match (find(data, '('), find(data, ')')) {
        (Some(o), Some(c)) => o < c && c + 2 <= data.len() && (data[c + 1] as u32) < 128,
        _ => true,
    }
}

/// The view of parsed stat fields.
pub open spec fn stat_view(r: Option<(String, char, i32, u64, u64, u64, u64)>) -> Option<
    (Seq<char>, char, i32, u64, u64, u64, u64),
> {
    match r {
        Some(t) => Some((t.0@, t.1, t.2, t.3, t.4, t.5, t.6)),
        None => None,
    }
}

/// Parses a `/proc/<pid>/stat` line (see `stat_spec`).
pub fn parse_stat(stat_data: &str) -> (r: Option<(String, char, i32, u64, u64, u64, u64)>)
    requires
        stat_slices_ok(stat_data@),
    ensures
        stat_view(r) == stat_spec(stat_data@),
{
    let d = chars_of(stat_data);
    proof {
        lemma_find_from_bounds(d@, '(', 0);
        lemma_find_from_bounds(d@, ')', 0);
    }
    let open = match find_char_from(&d, '(', 0) {
        Some(o) => o,
        None => {
            return None;
        },
    };
    let close = match find_char_from(&d, ')', 0) {
        Some(c) => c,
        None => {
            return None;
        },
    };
    let comm = string_of(&subvec(&d, open + 1, close));
    let rest = subvec(&d, close + 2, d.len());
    let ps = words_of(&rest);
    if ps.len() < 15 {
        return None;
    }
    proof {
        assert(ps@[0]@ == views(ps@)[0] && ps@[1]@ == views(ps@)[1]);
        assert(ps@[11]@ == views(ps@)[11] && ps@[12]@ == views(ps@)[12]);
        assert(ps@[13]@ == views(ps@)[13] && ps@[14]@ == views(ps@)[14]);
        crate::text::lemma_words_nonempty(rest@, 0);
    }
    let ppid = match crate::text::parse_i32(&ps[1]) {
        Some(v) => v,
        None => {
            return None;
        },
    };
    let u = match parse_u64(&ps[11]) {
        Some(v) => v,
        None => {
            return None;
        },
    };
    let st = match parse_u64(&ps[12]) {
        Some(v) => v,
        None => {
            return None;
        },
    };
    let cu = match parse_u64(&ps[13]) {
        Some(v) => v,
        None => {
            return None;
        },
    };
    let cs = match parse_u64(&ps[14]) {
        Some(v) => v,
        None => {
            return None;
        },
    };
    assert(views(ps@)[0].len() > 0);
    let state = ps[0][0];
    Some((comm, state, ppid, u, st, cu, cs))
}

/// Null bytes turned into spaces.
pub open spec fn nul_to_space(s: Seq<char>) -> Seq<char> {
    s.map_values(|c: char| if c == '\0' { ' ' } else { c })
}

/// The command a process shows: its command line with the null separators
/// turned into spaces and trimmed, or its name where that is empty.
pub open spec fn display_command_spec(raw_cmdline: Seq<char>, name: Seq<char>) -> Seq<char> {
    let t = trim(nul_to_space(raw_cmdline));
    if t.len() == 0 {
        name
    } else {
        t
    }
}

/// The command a process shows (see `display_command_spec`).
pub fn display_command(raw_cmdline: &str, name: &str) -> (r: String)
    ensures
        r@ == display_command_spec(raw_cmdline@, name@),
{
    let raw = chars_of(raw_cmdline);
    let mut spaced: Vec<char> = Vec::new();
    let mut i: usize = 0;
    while i < raw.len()
        invariant
            i <= raw@.len(),
            spaced@ == nul_to_space(raw@.take(i as int)),
        decreases raw@.len() - i,
    {
        let c = raw[i];
        spaced.push(if c == '\0' {
            ' '
        } else {
            c
        });
        assert(spaced@ =~= nul_to_space(raw@.take(i + 1)));
        i = i + 1;
    }
    assert(raw@.take(raw@.len() as int) =~= raw@);
    let t = trim_chars(&spaced);
    if t.len() == 0 {
        string_of(&chars_of(name))
    } else {
        string_of(&t)
    }
}

/// A kernel thread: a child of `kthreadd` (pid 2) or a name in brackets.
pub open spec fn is_kthread_spec(ppid: i32, name: Seq<char>) -> bool {
    ppid == 2 || (name.len() > 0 && name[0] == '[')
}

/// Whether a process is a kernel thread.
pub fn is_kthread(ppid: i32, name: &str) -> (r: bool)
    ensures
        r == is_kthread_spec(ppid, name@),
{
    let n = chars_of(name);
    ppid == 2 || (n.len() > 0 && n[0] == '[')
}

// ---------------------------------------------------------------------
// Parents
// ---------------------------------------------------------------------
/// Some process names `pid` as its parent.
pub open spec fn has_child_in(pids: Map<i32, ProcessInfo>, pid: i32) -> bool {
    exists|q: i32| pids.contains_key(q) && #[trigger] pids[q].ppid == pid
}

/// The records agree but for the parent flag.
pub open spec fn same_but_children(a: ProcessInfo, b: ProcessInfo) -> bool {
    &&& a.pid == b.pid
    &&& a.ppid == b.ppid
    &&& a.name == b.name
    &&& a.user == b.user
    &&& a.state == b.state
    &&& a.command == b.command
    &&& a.cgroup == b.cgroup
    &&& a.mem_rss == b.mem_rss
    &&& a.vram_bytes == b.vram_bytes
    &&& a.is_gui == b.is_gui
    &&& a.is_kthread == b.is_kthread
    &&& a.is_owned_by_current_user == b.is_owned_by_current_user
    &&& a.is_electron == b.is_electron
    &&& a.electron_app_name == b.electron_app_name
    &&& a.icon_name == b.icon_name
    &&& a.keys == b.keys
}

/// Flags every process that some process names as its parent.
pub fn mark_has_children(pid_to_proc: &mut HashMap<i32, ProcessInfo>)
    ensures
        final(pid_to_proc)@.dom() == old(pid_to_proc)@.dom(),
        forall|p: i32|
            #[trigger] old(pid_to_proc)@.contains_key(p) ==> same_but_children(
                final(pid_to_proc)@[p],
                old(pid_to_proc)@[p],
            ) && final(pid_to_proc)@[p].has_children == (old(pid_to_proc)@[p].has_children
                || has_child_in(old(pid_to_proc)@, p)),
{
    let ghost orig = pid_to_proc@;
    let keys = map_keys(pid_to_proc);
    let mut ppids: Vec<i32> = Vec::new();
    let mut j: usize = 0;
    while j < keys.len()
        invariant
            pid_to_proc@ == orig,
            keys@.to_set() == orig.dom(),
            j <= keys@.len(),
            ppids@.len() == j,
            forall|k: int| 0 <= k < j ==> ppids@[k] == orig[keys@[k]].ppid,
        decreases keys@.len() - j,
    {
        proof {
            assert(keys@.to_set().contains(keys@[j as int]));
        }
        let pp = match pid_to_proc.get(&keys[j]) {
            Some(rec) => rec.ppid,
            None => 0,
        };
        ppids.push(pp);
        j = j + 1;
    }
    proof {
        assert forall|p: i32| has_child_in(orig, p) <==> ppids@.contains(p) by {
            if has_child_in(orig, p) {
                let q = choose|q: i32| orig.contains_key(q) && #[trigger] orig[q].ppid == p;
                assert(keys@.to_set().contains(q));
                let k = choose|k: int| 0 <= k < keys@.len() && keys@[k] == q;
                assert(ppids@[k] == p);
            }
            if ppids@.contains(p) {
                let k = choose|k: int| 0 <= k < ppids@.len() && ppids@[k] == p;
                assert(keys@.to_set().contains(keys@[k]));
                assert(orig[keys@[k]].ppid == p);
            }
        }
    }
    let mut i: usize = 0;
    while i < keys.len()
        invariant
            keys@.to_set() == orig.dom(),
            keys@.no_duplicates(),
            forall|p: i32| has_child_in(orig, p) <==> ppids@.contains(p),
            i <= keys@.len(),
            pid_to_proc@.dom() == orig.dom(),
            forall|k: int| i <= k < keys@.len() ==> pid_to_proc@[keys@[k]] == orig[keys@[k]],
            forall|k: int|
                0 <= k < i ==> same_but_children(pid_to_proc@[keys@[k]], orig[keys@[k]])
                    && pid_to_proc@[keys@[k]].has_children == (orig[keys@[k]].has_children
                    || has_child_in(orig, keys@[k])),
        decreases keys@.len() - i,
    {
        let p = keys[i];
        proof {
            assert(keys@.to_set().contains(p));
        }
        let child = crate::data::processes::tree::holds_pid_in(&ppids, p);
        let mut rec = match pid_to_proc.get(&p) {
            Some(rec) => rec.duplicate(),
            None => {
                proof {
                    assert(false);
                }
                return ;
            },
        };
        rec.has_children = rec.has_children || child;
        pid_to_proc.insert(p, rec);
        proof {
            assert forall|k: int| i + 1 <= k < keys@.len() implies pid_to_proc@[keys@[k]]
                == orig[keys@[k]] by {
                assert(keys@[k] != p);
            }
            assert forall|k: int|
                0 <= k < i + 1 implies same_but_children(pid_to_proc@[keys@[k]], orig[keys@[k]])
                && pid_to_proc@[keys@[k]].has_children == (orig[keys@[k]].has_children
                || has_child_in(orig, keys@[k])) by {
                if k < i {
                    assert(keys@[k] != p);
                }
            }
        }
        i = i + 1;
    }
    proof {
        assert forall|p: i32| #[trigger] orig.contains_key(p) implies same_but_children(
            pid_to_proc@[p],
            orig[p],
        ) && pid_to_proc@[p].has_children == (orig[p].has_children || has_child_in(orig, p)) by {
            assert(keys@.to_set().contains(p));
            let k = choose|k: int| 0 <= k < keys@.len() && keys@[k] == p;
        }
    }
}

} // verus!
