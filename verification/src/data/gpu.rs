//! GPU back-end choice and per-process video-memory totals.

use crate::data::model::GpuBackend;
use crate::text::{
    chars_of, ends_with, ends_with_chars, fields, lines, lines_of, parse_i32, parse_i32_spec,
    parse_u64, parse_u64_spec, split_on, subvec, trim, trim_chars, views,
};
use std::collections::HashMap;
use vstd::prelude::*;

verus! {

/// The back-end that the probes found: NVML first, then `rocm-smi`.
pub fn detect_gpu(nvml_available: bool, rocm_available: bool) -> (r: GpuBackend)
    ensures
        r == (if nvml_available {
            GpuBackend::Nvidia
        } else if rocm_available {
            GpuBackend::Amd
        } else {
            GpuBackend::NoGpu
        }),
{
    if nvml_available {
        GpuBackend::Nvidia
    } else if rocm_available {
        GpuBackend::Amd
    } else {
        GpuBackend::NoGpu
    }
}

// ---------------------------------------------------------------------
// Totals
// ---------------------------------------------------------------------
/// The total recorded for `pid`, zero when none is.
pub open spec fn total_of(m: Map<i32, int>, pid: i32) -> int {
    if m.contains_key(pid) {
        m[pid]
    } else {
        0
    }
}

/// Adds `bytes` to the total of `pid`.
pub open spec fn add_usage(m: Map<i32, int>, pid: i32, bytes: int) -> Map<i32, int> {
    m.insert(pid, total_of(m, pid) + bytes)
}

/// Adds every `(pid, bytes)` sample, in order, to the totals `m`.
pub open spec fn fold_usage(m: Map<i32, int>, s: Seq<(i32, int)>) -> Map<i32, int>
    decreases s.len(),
{
    if s.len() == 0 {
        m
    } else {
        fold_usage(add_usage(m, s[0].0, s[0].1), s.drop_first())
    }
}

/// The per-process totals of some samples.
pub open spec fn usage_totals(s: Seq<(i32, int)>) -> Map<i32, int> {
    fold_usage(Map::empty(), s)
}

/// Every total fits in a `u64`.
pub open spec fn totals_fit(m: Map<i32, int>) -> bool {
    forall|k: i32| #[trigger] m.contains_key(k) ==> m[k] <= u64::MAX
}

/// A map of byte counts read as integers.
pub open spec fn int_map(m: Map<i32, u64>) -> Map<i32, int> {
    m.map_values(|v: u64| v as int)
}

/// Samples of byte counts read as integers.
pub open spec fn int_samples(s: Seq<(i32, u64)>) -> Seq<(i32, int)> {
    s.map_values(|p: (i32, u64)| (p.0, p.1 as int))
}

/// Adding samples never removes a process nor lowers a total, when every
/// sample is non-negative.
pub proof fn lemma_fold_grows(m: Map<i32, int>, s: Seq<(i32, int)>)
    requires
        forall|k: int| 0 <= k < s.len() ==> #[trigger] s[k].1 >= 0,
    ensures
        forall|p: i32|
            #[trigger] m.contains_key(p) ==> fold_usage(m, s).contains_key(p) && fold_usage(
                m,
                s,
            )[p] >= m[p],
    decreases s.len(),
{
    if s.len() > 0 {
        let m2 = add_usage(m, s[0].0, s[0].1);
        assert forall|k: int| 0 <= k < s.drop_first().len() implies #[trigger] s.drop_first()[k].1
            >= 0 by {
            assert(s.drop_first()[k] == s[k + 1]);
        }
        lemma_fold_grows(m2, s.drop_first());
        assert(s[0].1 >= 0);
        assert(fold_usage(m, s) == fold_usage(m2, s.drop_first()));
        assert forall|p: i32| #[trigger] m.contains_key(p) implies m2.contains_key(p) && m2[p]
            >= m[p] by {
            if p == s[0].0 {
                assert(total_of(m, p) == m[p]);
            }
        }
    }
}

/// Folding a concatenation folds its parts in turn.
pub proof fn lemma_fold_concat(m: Map<i32, int>, a: Seq<(i32, int)>, b: Seq<(i32, int)>)
    ensures
        fold_usage(m, a + b) == fold_usage(fold_usage(m, a), b),
    decreases a.len(),
{
    if a.len() == 0 {
        assert(a + b =~= b);
    } else {
        assert((a + b).drop_first() =~= a.drop_first() + b);
        assert((a + b)[0] == a[0]);
        lemma_fold_concat(add_usage(m, a[0].0, a[0].1), a.drop_first(), b);
    }
}

/// The per-process totals of `(pid, bytes)` samples, such as the processes
/// that each device reports.
pub fn vram_totals(samples: &Vec<(i32, u64)>) -> (r: HashMap<i32, u64>)
    requires
        totals_fit(usage_totals(int_samples(samples@))),
    ensures
        int_map(r@) == usage_totals(int_samples(samples@)),
{
    match vram_totals_checked(samples) {
        Some(m) => m,
        None => HashMap::new(),
    }
}

/// A step of an accumulation whose new total does not fit: the final
/// totals do not fit either.
proof fn lemma_step_overflows(m: Map<i32, u64>, s: Seq<(i32, int)>, total: Map<i32, int>)
    requires
        s.len() > 0,
        forall|k: int| 0 <= k < s.len() ==> #[trigger] s[k].1 >= 0,
        fold_usage(int_map(m), s) == total,
        total_of(int_map(m), s[0].0) + s[0].1 > u64::MAX,
    ensures
        !totals_fit(total),
{
    let m2 = add_usage(int_map(m), s[0].0, s[0].1);
    assert forall|k: int| 0 <= k < s.drop_first().len() implies #[trigger] s.drop_first()[k].1 >= 0 by {
        assert(s.drop_first()[k] == s[k + 1]);
    }
    lemma_fold_grows(m2, s.drop_first());
    assert(m2.contains_key(s[0].0));
    assert(total.contains_key(s[0].0));
}

/// Adds one sample where the new total fits; tells whether it did.
fn try_add_sample(m: &mut HashMap<i32, u64>, pid: i32, bytes: u64) -> (ok: bool)
    ensures
        ok == (total_of(int_map(old(m)@), pid) + bytes <= u64::MAX),
        ok ==> int_map(final(m)@) == add_usage(int_map(old(m)@), pid, bytes as int),
        !ok ==> final(m)@ == old(m)@,
{
    let cur: u64 = match m.get(&pid) {
        Some(v) => *v,
        None => 0,
    };
    match cur.checked_add(bytes) {
        Some(t) => {
            m.insert(pid, t);
            assert(int_map(m@) =~= add_usage(int_map(old(m)@), pid, bytes as int));
            true
        },
        None => false,
    }
}

/// The per-process totals of samples where they all fit in 64 bits, else
/// `None`.
pub fn vram_totals_checked(samples: &Vec<(i32, u64)>) -> (r: Option<HashMap<i32, u64>>)
    ensures
        r is Some <==> totals_fit(usage_totals(int_samples(samples@))),
        r matches Some(m) ==> int_map(m@) == usage_totals(int_samples(samples@)),
{
    let ghost s = int_samples(samples@);
    let ghost total = usage_totals(s);
    let mut m: HashMap<i32, u64> = HashMap::new();
    assert(int_map(m@) =~= Map::<i32, int>::empty());
    assert(s.skip(0) =~= s);
    let mut i: usize = 0;
    while i < samples.len()
        invariant
            i <= samples@.len(),
            s == int_samples(samples@),
            total == usage_totals(s),
            fold_usage(int_map(m@), s.skip(i as int)) == total,
        decreases samples@.len() - i,
    {
        let (pid, bytes) = samples[i];
        let ghost rest = s.skip(i as int);
        proof {
            assert(rest[0] == (pid, bytes as int));
            assert forall|k: int| 0 <= k < rest.len() implies #[trigger] rest[k].1 >= 0 by {
                assert(rest[k] == s[i + k]);
            }
            assert(rest.drop_first() =~= s.skip(i + 1));
        }
        let ghost before = m@;
        if !try_add_sample(&mut m, pid, bytes) {
            proof {
                lemma_step_overflows(before, rest, total);
            }
            return None;
        }
        i = i + 1;
    }
    assert(s.skip(i as int) =~= Seq::<(i32, int)>::empty());
    proof {
        assert forall|k: i32| #[trigger] total.contains_key(k) implies total[k] <= u64::MAX by {
            assert(int_map(m@).contains_key(k));
        }
    }
    Some(m)
}

// ---------------------------------------------------------------------
// rocm-smi
// ---------------------------------------------------------------------
/// Bytes in a mebibyte.
pub open spec fn mib() -> int {
    1048576
}

/// The megabytes of a `"<n> MB"` field (surrounding white space ignored).
pub open spec fn mb_value(f: Seq<char>) -> Option<u64> {
    let t = trim(f);
    if ends_with(t, " MB"@) {
        parse_u64_spec(t.subrange(0, t.len() - 3))
    } else {
        None
    }
}

/// The samples of the fields after a line's process id.
pub open spec fn field_samples(pid: i32, fs: Seq<Seq<char>>) -> Seq<(i32, int)>
    decreases fs.len(),
{
    if fs.len() == 0 {
        seq![]
    } else {
        match mb_value(fs[0]) {
            Some(m) => seq![(pid, m * mib())] + field_samples(pid, fs.drop_first()),
            None => field_samples(pid, fs.drop_first()),
        }
    }
}

/// The samples of one line of `rocm-smi --showpids --csv`: a process id in
/// the first comma-separated field, then a sample for each `MB` field.
pub open spec fn line_samples(l: Seq<char>) -> Seq<(i32, int)> {
    let fs = fields(l, ',');
    match parse_i32_spec(trim(fs[0])) {
        Some(pid) => field_samples(pid, fs.drop_first()),
        None => seq![],
    }
}

/// The samples of all lines, in order.
pub open spec fn rocm_samples(ls: Seq<Seq<char>>) -> Seq<(i32, int)>
    decreases ls.len(),
{
    if ls.len() == 0 {
        seq![]
    } else {
        line_samples(ls[0]) + rocm_samples(ls.drop_first())
    }
}

/// The per-process video memory that `rocm-smi --showpids --csv` reports.
pub open spec fn rocm_totals(csv: Seq<char>) -> Map<i32, int> {
    usage_totals(rocm_samples(lines(csv)))
}

proof fn lemma_field_samples_nonneg(pid: i32, fs: Seq<Seq<char>>)
    ensures
        forall|k: int|
            0 <= k < field_samples(pid, fs).len() ==> #[trigger] field_samples(pid, fs)[k].1 >= 0,
    decreases fs.len(),
{
    if fs.len() > 0 {
        lemma_field_samples_nonneg(pid, fs.drop_first());
        let rest = field_samples(pid, fs.drop_first());
        match mb_value(fs[0]) {
            Some(m) => {
                let all = seq![(pid, m * mib())] + rest;
                assert(field_samples(pid, fs) == all);
                assert forall|k: int| 0 <= k < all.len() implies #[trigger] all[k].1 >= 0 by {
                    if k > 0 {
                        assert(all[k] == rest[k - 1]);
                    }
                }
            },
            None => {},
        }
    }
}

/// The megabytes of a field, as `mb_value` reads them.
fn mb_of(f: &Vec<char>) -> (r: Option<u64>)
    ensures
        r == mb_value(f@),
{
    let t = trim_chars(f);
    let suffix = chars_of(" MB");
    if t.len() >= 3 && ends_with_chars(&t, &suffix) {
        parse_u64(&subvec(&t, 0, t.len() - 3))
    } else {
        proof {
            reveal_strlit(" MB");
        }
        None
    }
}

/// The per-process video memory in the output of
/// `rocm-smi --showpids --csv`.
pub fn rocm_vram_map(csv: &str) -> (r: HashMap<i32, u64>)
    requires
        totals_fit(rocm_totals(csv@)),
    ensures
        int_map(r@) == rocm_totals(csv@),
{
    match rocm_vram_map_checked(csv) {
        Some(m) => m,
        None => HashMap::new(),
    }
}

/// The per-process video memory in the output of
/// `rocm-smi --showpids --csv` where every total fits in 64 bits, else
/// `None`.
pub fn rocm_vram_map_checked(csv: &str) -> (r: Option<HashMap<i32, u64>>)
    ensures
        r is Some <==> totals_fit(rocm_totals(csv@)),
        r matches Some(m) ==> int_map(m@) == rocm_totals(csv@),
{
    let ls = lines_of(&chars_of(csv));
    let ghost lv = views(ls@);
    let ghost total = rocm_totals(csv@);
    let mut m: HashMap<i32, u64> = HashMap::new();
    assert(int_map(m@) =~= Map::<i32, int>::empty());
    assert(lv.skip(0) =~= lv);
    let mut li: usize = 0;
    while li < ls.len()
        invariant
            li <= ls@.len(),
            lv == views(ls@),
            lv == lines(csv@),
            total == rocm_totals(csv@),
            fold_usage(int_map(m@), rocm_samples(lv.skip(li as int))) == total,
        decreases ls@.len() - li,
    {
        let ghost rest_lines = lv.skip((li + 1) as int);
        proof {
            let here = lv.skip(li as int);
            assert(here[0] == ls@[li as int]@);
            assert(here.drop_first() =~= rest_lines);
            lemma_fold_concat(int_map(m@), line_samples(ls@[li as int]@), rocm_samples(rest_lines));
        }
        let fs = split_on(&ls[li], ',');
        let ghost fv = views(fs@);
        assert(fv.len() > 0) by {
            reveal_with_fuel(crate::text::fields_from, 2);
            crate::text::lemma_find_from_bounds(ls@[li as int]@, ',', 0);
        }
        match parse_i32(&trim_chars(&fs[0])) {
            Some(pid) => {
                let mut fi: usize = 1;
                assert(fv.skip(1) =~= fv.drop_first());
                while fi < fs.len()
                    invariant
                        1 <= fi <= fs@.len(),
                        fv == views(fs@),
                        total == rocm_totals(csv@),
                        fold_usage(
                            int_map(m@),
                            field_samples(pid, fv.skip(fi as int)) + rocm_samples(rest_lines),
                        ) == total,
                    decreases fs@.len() - fi,
                {
                    let ghost here = fv.skip(fi as int);
                    let ghost rest = rocm_samples(rest_lines);
                    proof {
                        assert(here[0] == fs@[fi as int]@);
                        assert(here.drop_first() =~= fv.skip(fi + 1));
                    }
                    match mb_of(&fs[fi]) {
                        Some(mb) => {
                            let ghost all = field_samples(pid, here) + rest;
                            proof {
                                assert(field_samples(pid, here) == seq![(pid, mb * mib())]
                                    + field_samples(pid, here.drop_first()));
                                assert(all =~= seq![(pid, mb * mib())] + (field_samples(
                                    pid,
                                    here.drop_first(),
                                ) + rest));
                                lemma_field_samples_nonneg(pid, here);
                                lemma_field_samples_nonneg(pid, here.drop_first());
                                assert forall|k: int| 0 <= k < all.len() implies #[trigger] all[k].1
                                    >= 0 by {
                                    if k >= field_samples(pid, here).len() {
                                        let j = k - field_samples(pid, here).len();
                                        assert(all[k] == rest[j]);
                                        lemma_rocm_samples_nonneg(rest_lines);
                                    } else {
                                        assert(all[k] == field_samples(pid, here)[k]);
                                    }
                                }
                                assert(all.drop_first() =~= field_samples(pid, here.drop_first())
                                    + rest);
                                assert(all[0] == (pid, mb * mib()));
                                if int_map(m@).contains_key(pid) {
                                    assert(int_map(m@)[pid] >= 0);
                                }
                            }
                            let ghost before = m@;
                            let bytes: u64 = match mb.checked_mul(1048576) {
                                Some(b) => b,
                                None => {
                                    proof {
                                        lemma_step_overflows(before, all, total);
                                    }
                                    return None;
                                },
                            };
                            if !try_add_sample(&mut m, pid, bytes) {
                                proof {
                                    lemma_step_overflows(before, all, total);
                                }
                                return None;
                            }
                        },
                        None => {
                            assert(field_samples(pid, here) == field_samples(pid, here.drop_first()));
                        },
                    }
                    fi = fi + 1;
                }
                assert(fv.skip(fi as int) =~= Seq::<Seq<char>>::empty());
                assert(field_samples(pid, fv.skip(fi as int)) =~= Seq::<(i32, int)>::empty());
                assert(Seq::<(i32, int)>::empty() + rocm_samples(rest_lines) =~= rocm_samples(
                    rest_lines,
                ));
            },
            None => {
                assert(line_samples(ls@[li as int]@) =~= Seq::<(i32, int)>::empty());
                assert(Seq::<(i32, int)>::empty() + rocm_samples(rest_lines) =~= rocm_samples(
                    rest_lines,
                ));
            },
        }
        li = li + 1;
    }
    assert(lv.skip(li as int) =~= Seq::<Seq<char>>::empty());
    proof {
        assert forall|k: i32| #[trigger] total.contains_key(k) implies total[k] <= u64::MAX by {
            assert(int_map(m@).contains_key(k));
        }
    }
    Some(m)
}

proof fn lemma_rocm_samples_nonneg(ls: Seq<Seq<char>>)
    ensures
        forall|k: int| 0 <= k < rocm_samples(ls).len() ==> #[trigger] rocm_samples(ls)[k].1 >= 0,
    decreases ls.len(),
{
    if ls.len() > 0 {
        lemma_rocm_samples_nonneg(ls.drop_first());
        let fs = fields(ls[0], ',');
        match parse_i32_spec(trim(fs[0])) {
            Some(pid) => lemma_field_samples_nonneg(pid, fs.drop_first()),
            None => {},
        }
        let a = line_samples(ls[0]);
        let b = rocm_samples(ls.drop_first());
        assert forall|k: int| 0 <= k < (a + b).len() implies #[trigger] (a + b)[k].1 >= 0 by {
            if k >= a.len() {
                assert((a + b)[k] == b[k - a.len()]);
            }
        }
    }
}

/// The video memory used per process: the NVML samples on NVIDIA, the
/// `rocm-smi` report on AMD, nothing without a GPU back-end.
pub fn build_vram_map(gpu_backend: GpuBackend, nvidia_samples: &Vec<(i32, u64)>, rocm_csv: &str) -> (r:
    HashMap<i32, u64>)
    requires
        gpu_backend == GpuBackend::Nvidia ==> totals_fit(
            usage_totals(int_samples(nvidia_samples@)),
        ),
        gpu_backend == GpuBackend::Amd ==> totals_fit(rocm_totals(rocm_csv@)),
    ensures
        int_map(r@) == match gpu_backend {
            GpuBackend::Nvidia => usage_totals(int_samples(nvidia_samples@)),
            GpuBackend::Amd => rocm_totals(rocm_csv@),
            GpuBackend::NoGpu => Map::<i32, int>::empty(),
        },
{
    match gpu_backend {
        GpuBackend::Nvidia => vram_totals(nvidia_samples),
        GpuBackend::Amd => rocm_vram_map(rocm_csv),
        GpuBackend::NoGpu => {
            let m: HashMap<i32, u64> = HashMap::new();
            assert(int_map(m@) =~= Map::<i32, int>::empty());
            m
        },
    }
}

/// The video memory used per process as `build_vram_map` reads it, where
/// the totals of the back-end's report fit in 64 bits, else `None`.
pub fn build_vram_map_checked(
    gpu_backend: GpuBackend,
    nvidia_samples: &Vec<(i32, u64)>,
    rocm_csv: &str,
) -> (r: Option<HashMap<i32, u64>>)
    ensures
        r is Some <==> match gpu_backend {
            GpuBackend::Nvidia => totals_fit(usage_totals(int_samples(nvidia_samples@))),
            GpuBackend::Amd => totals_fit(rocm_totals(rocm_csv@)),
            GpuBackend::NoGpu => true,
        },
        r matches Some(m) ==> int_map(m@) == match gpu_backend {
            GpuBackend::Nvidia => usage_totals(int_samples(nvidia_samples@)),
            GpuBackend::Amd => rocm_totals(rocm_csv@),
            GpuBackend::NoGpu => Map::<i32, int>::empty(),
        },
{
    match gpu_backend {
        GpuBackend::Nvidia => vram_totals_checked(nvidia_samples),
        GpuBackend::Amd => rocm_vram_map_checked(rocm_csv),
        GpuBackend::NoGpu => {
            let m: HashMap<i32, u64> = HashMap::new();
            assert(int_map(m@) =~= Map::<i32, int>::empty());
            Some(m)
        },
    }
}

} // verus!
