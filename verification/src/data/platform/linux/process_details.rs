//! The details a properties window shows for one process, from the text
//! of its `/proc` files.

use crate::collect::{first_word_number, first_word_u64, kv_get, kv_lookup, pair_views};
use crate::data::processes::rank::{compare_text, text_order, Order};
use crate::text::{
    chars_of, find, lines, lines_of, parse_i32, parse_i32_spec, parse_u32, parse_u32_spec, parse_u64,
    parse_u64_spec, string_of, trim, trim_chars, views, words, words_of,
};
use vstd::prelude::*;

pub use crate::collect::parse_kv;

verus! {

/// What the properties window shows of a process.
pub struct ProcessDetails {
    pub exists: bool,
    pub exe_path: String,
    pub cwd_path: String,
    pub name: String,
    pub state: char,
    pub ppid: i32,
    pub user_name: String,
    pub uid: u32,
    pub gid: u32,
    pub threads: u32,
    pub vm_peak: u64,
    pub vm_size: u64,
    pub vm_rss: u64,
    pub vm_data: u64,
    pub vm_stk: u64,
    pub vm_exe: u64,
    pub vm_lib: u64,
    pub vm_swap: u64,
    pub io_read_bytes: u64,
    pub io_write_bytes: u64,
    pub io_read_syscalls: u64,
    pub io_write_syscalls: u64,
    pub limits: Vec<(String, String)>,
    pub file_descriptors: Vec<(String, String)>,
    pub environment: Vec<(String, String)>,
}

impl ProcessDetails {
    /// The details of a process that does not exist: everything empty or
    /// zero.
    pub fn absent() -> (r: ProcessDetails)
        ensures
            !r.exists,
            r.exe_path@.len() == 0 && r.cwd_path@.len() == 0 && r.name@.len() == 0,
            r.user_name@.len() == 0,
            r.state == '\0' && r.ppid == 0 && r.uid == 0 && r.gid == 0 && r.threads == 0,
            r.vm_peak == 0 && r.vm_size == 0 && r.vm_rss == 0 && r.vm_data == 0 && r.vm_stk == 0
                && r.vm_exe == 0 && r.vm_lib == 0 && r.vm_swap == 0,
            r.io_read_bytes == 0 && r.io_write_bytes == 0 && r.io_read_syscalls == 0
                && r.io_write_syscalls == 0,
            r.limits@.len() == 0 && r.file_descriptors@.len() == 0 && r.environment@.len() == 0,
    {
        ProcessDetails {
            exists: false,
            exe_path: String::new(),
            cwd_path: String::new(),
            name: String::new(),
            state: '\0',
            ppid: 0,
            user_name: String::new(),
            uid: 0,
            gid: 0,
            threads: 0,
            vm_peak: 0,
            vm_size: 0,
            vm_rss: 0,
            vm_data: 0,
            vm_stk: 0,
            vm_exe: 0,
            vm_lib: 0,
            vm_swap: 0,
            io_read_bytes: 0,
            io_write_bytes: 0,
            io_read_syscalls: 0,
            io_write_syscalls: 0,
            limits: Vec::new(),
            file_descriptors: Vec::new(),
            environment: Vec::new(),
        }
    }
}

/// The kB figure of `key` as `parse_kb` reads it (0 where missing).
pub open spec fn kb_of(pairs: Seq<(Seq<char>, Seq<char>)>, key: Seq<char>) -> int {
    match kv_get(pairs, key) {
        Some(v) => match first_word_u64(v) {
            Some(n) => n as int,
            None => 0,
        },
        None => 0,
    }
}

/// The bytes of a kB figure of a `status` map: the first word of its value
/// times 1024, 0 where it is missing or no number.
pub fn parse_kb(map: &Vec<(String, String)>, key: &str) -> (r: u64)
    requires
        kb_of(pair_views(map@), key@) * 1024 <= u64::MAX,
    ensures
        r == kb_of(pair_views(map@), key@) * 1024,
{
    let n = match kv_lookup(map, key) {
        Some(v) => match first_word_number(v.as_str()) {
            Some(n) => n,
            None => 0,
        },
        None => 0,
    };
    n * 1024
}

/// A value as a whole number (trimmed where `trimmed`), 0 where it is
/// none.
pub open spec fn u64_value(pairs: Seq<(Seq<char>, Seq<char>)>, key: Seq<char>) -> int {
    match kv_get(pairs, key) {
        Some(v) => match parse_u64_spec(v) {
            Some(n) => n as int,
            None => 0,
        },
        None => 0,
    }
}

fn u64_value_of(pairs: &Vec<(String, String)>, key: &str) -> (r: u64)
    ensures
        r == u64_value(pair_views(pairs@), key@),
{
    match kv_lookup(pairs, key) {
        Some(v) => match parse_u64(&chars_of(v.as_str())) {
            Some(n) => n,
            None => 0,
        },
        None => 0,
    }
}

/// The first word of a value as a `u32`, 0 where it is none.
pub open spec fn u32_word(pairs: Seq<(Seq<char>, Seq<char>)>, key: Seq<char>) -> u32 {
    match kv_get(pairs, key) {
        Some(v) => if words(v).len() > 0 {
            match parse_u32_spec(words(v)[0]) {
                Some(n) => n,
                None => 0,
            }
        } else {
            0
        },
        None => 0,
    }
}

fn u32_word_of(pairs: &Vec<(String, String)>, key: &str) -> (r: u32)
    ensures
        r == u32_word(pair_views(pairs@), key@),
{
    match kv_lookup(pairs, key) {
        Some(v) => {
            let ws = words_of(&chars_of(v.as_str()));
            if ws.len() > 0 {
                assert(ws@[0]@ == views(ws@)[0]);
                match parse_u32(&ws[0]) {
                    Some(n) => n,
                    None => 0,
                }
            } else {
                0
            }
        },
        None => 0,
    }
}

/// The user id that a `status` text names (its first `Uid` number).
pub fn details_uid(status: &str) -> (r: u32)
    ensures
        r == u32_word(crate::collect::kv_spec(status@), "Uid"@),
{
    u32_word_of(&parse_kv(status), "Uid")
}

/// The status figures in kB fit in 64 bits as bytes.
pub open spec fn status_fits(status: Seq<char>) -> bool {
    let p = crate::collect::kv_spec(status);
    &&& kb_of(p, "VmPeak"@) * 1024 <= u64::MAX
    &&& kb_of(p, "VmSize"@) * 1024 <= u64::MAX
    &&& kb_of(p, "VmRSS"@) * 1024 <= u64::MAX
    &&& kb_of(p, "VmData"@) * 1024 <= u64::MAX
    &&& kb_of(p, "VmStk"@) * 1024 <= u64::MAX
    &&& kb_of(p, "VmExe"@) * 1024 <= u64::MAX
    &&& kb_of(p, "VmLib"@) * 1024 <= u64::MAX
    &&& kb_of(p, "VmSwap"@) * 1024 <= u64::MAX
}

/// Whether a kB figure of a `status` map fits in 64 bits as bytes.
fn kb_fits(map: &Vec<(String, String)>, key: &str) -> (r: bool)
    ensures
        r == (kb_of(pair_views(map@), key@) * 1024 <= u64::MAX),
{
    let n = match kv_lookup(map, key) {
        Some(v) => match first_word_number(v.as_str()) {
            Some(n) => n,
            None => 0,
        },
        None => 0,
    };
    n <= 18014398509481983
}

/// Whether the kB figures of a `status` text fit in 64 bits as bytes
/// (`status_fits`).
pub fn status_within_range(status: &str) -> (r: bool)
    ensures
        r == status_fits(status@),
{
    let m = parse_kv(status);
    kb_fits(&m, "VmPeak") && kb_fits(&m, "VmSize") && kb_fits(&m, "VmRSS") && kb_fits(&m, "VmData")
        && kb_fits(&m, "VmStk") && kb_fits(&m, "VmExe") && kb_fits(&m, "VmLib") && kb_fits(
        &m,
        "VmSwap",
    )
}

/// The details of a process from the text of its `status` and `io` files
/// and what was read elsewhere: name, state (first character of `State`,
/// `'?'` where missing), ppid, user and group ids, threads, memory figures
/// in bytes, and I/O counters; missing figures are 0.
pub fn details_from(
    status: &str,
    io: &str,
    exe_path: String,
    cwd_path: String,
    user_name: String,
    limits: Vec<(String, String)>,
    file_descriptors: Vec<(String, String)>,
    environment: Vec<(String, String)>,
) -> (r: ProcessDetails)
    requires
        status_fits(status@),
    ensures
        ({
            let p = crate::collect::kv_spec(status@);
            let q = crate::collect::kv_spec(io@);
            &&& r.exists
            &&& r.exe_path == exe_path && r.cwd_path == cwd_path && r.user_name == user_name
            &&& r.name@ == match kv_get(p, "Name"@) {
                Some(v) => v,
                None => seq![],
            }
            &&& r.state == match kv_get(p, "State"@) {
                Some(v) => if v.len() > 0 {
                    v[0]
                } else {
                    '?'
                },
                None => '?',
            }
            &&& r.ppid == match kv_get(p, "PPid"@) {
                Some(v) => match parse_i32_spec(trim(v)) {
                    Some(n) => n,
                    None => 0,
                },
                None => 0,
            }
            &&& r.uid == u32_word(p, "Uid"@)
            &&& r.gid == u32_word(p, "Gid"@)
            &&& r.threads == match kv_get(p, "Threads"@) {
                Some(v) => match parse_u32_spec(trim(v)) {
                    Some(n) => n,
                    None => 0,
                },
                None => 0,
            }
            &&& r.vm_peak == kb_of(p, "VmPeak"@) * 1024
            &&& r.vm_size == kb_of(p, "VmSize"@) * 1024
            &&& r.vm_rss == kb_of(p, "VmRSS"@) * 1024
            &&& r.vm_data == kb_of(p, "VmData"@) * 1024
            &&& r.vm_stk == kb_of(p, "VmStk"@) * 1024
            &&& r.vm_exe == kb_of(p, "VmExe"@) * 1024
            &&& r.vm_lib == kb_of(p, "VmLib"@) * 1024
            &&& r.vm_swap == kb_of(p, "VmSwap"@) * 1024
            &&& r.io_read_bytes == u64_value(q, "read_bytes"@)
            &&& r.io_write_bytes == u64_value(q, "write_bytes"@)
            &&& r.io_read_syscalls == u64_value(q, "syscr"@)
            &&& r.io_write_syscalls == u64_value(q, "syscw"@)
            &&& r.limits == limits && r.file_descriptors == file_descriptors
            &&& r.environment == environment
        }),
{
    let status_map = parse_kv(status);
    let io_map = parse_kv(io);
    let name = match kv_lookup(&status_map, "Name") {
        Some(v) => v,
        None => String::new(),
    };
    let state = match kv_lookup(&status_map, "State") {
        Some(v) => {
            let c = chars_of(v.as_str());
            if c.len() > 0 {
                c[0]
            } else {
                '?'
            }
        },
        None => '?',
    };
    let ppid = match kv_lookup(&status_map, "PPid") {
        Some(v) => match parse_i32(&trim_chars(&chars_of(v.as_str()))) {
            Some(n) => n,
            None => 0,
        },
        None => 0,
    };
    let threads = match kv_lookup(&status_map, "Threads") {
        Some(v) => match parse_u32(&trim_chars(&chars_of(v.as_str()))) {
            Some(n) => n,
            None => 0,
        },
        None => 0,
    };
    ProcessDetails {
        exists: true,
        exe_path,
        cwd_path,
        name,
        state,
        ppid,
        user_name,
        uid: u32_word_of(&status_map, "Uid"),
        gid: u32_word_of(&status_map, "Gid"),
        threads,
        vm_peak: parse_kb(&status_map, "VmPeak"),
        vm_size: parse_kb(&status_map, "VmSize"),
        vm_rss: parse_kb(&status_map, "VmRSS"),
        vm_data: parse_kb(&status_map, "VmData"),
        vm_stk: parse_kb(&status_map, "VmStk"),
        vm_exe: parse_kb(&status_map, "VmExe"),
        vm_lib: parse_kb(&status_map, "VmLib"),
        vm_swap: parse_kb(&status_map, "VmSwap"),
        io_read_bytes: u64_value_of(&io_map, "read_bytes"),
        io_write_bytes: u64_value_of(&io_map, "write_bytes"),
        io_read_syscalls: u64_value_of(&io_map, "syscr"),
        io_write_syscalls: u64_value_of(&io_map, "syscw"),
        limits,
        file_descriptors,
        environment,
    }
}

// ---------------------------------------------------------------------
// Limits
// ---------------------------------------------------------------------
/// A limits line with at least four columns gives the limit's name and
/// `soft / hard`.
pub open spec fn limit_line(l: Seq<char>) -> Option<(Seq<char>, Seq<char>)> {
    let cols = words(l);
    if cols.len() >= 4 {
        Some((cols[0], cols[1] + " / "@ + cols[2]))
    } else {
        None
    }
}

/// The limits of some lines, in order.
pub open spec fn limits_of(ls: Seq<Seq<char>>) -> Seq<(Seq<char>, Seq<char>)>
    decreases ls.len(),
{
    if ls.len() == 0 {
        seq![]
    } else {
        let rest = limits_of(ls.drop_last());
        match limit_line(ls.last()) {
            Some(x) => rest.push(x),
            None => rest,
        }
    }
}

/// The lines after the header line.
pub open spec fn after_header(data: Seq<char>) -> Seq<Seq<char>> {
    if lines(data).len() >= 1 {
        lines(data).skip(1)
    } else {
        seq![]
    }
}

/// The limits of a `/proc/<pid>/limits` text: for every line after the
/// header with at least four columns, the limit's name and
/// `soft / hard`.
pub fn read_limits(data: &str) -> (r: Vec<(String, String)>)
    ensures
        pair_views(r@) == limits_of(after_header(data@)),
{
    let ls = lines_of(&chars_of(data));
    let mut r: Vec<(String, String)> = Vec::new();
    if ls.len() < 1 {
        return r;
    }
    let ghost body = views(ls@).skip(1);
    let mut i: usize = 1;
    while i < ls.len()
        invariant
            1 <= i <= ls@.len(),
            views(ls@) == lines(data@),
            body == views(ls@).skip(1),
            pair_views(r@) == limits_of(body.take(i - 1)),
        decreases ls@.len() - i,
    {
        let ghost before = r@;
        proof {
            assert(body.take(i + 1 - 1).drop_last() =~= body.take(i - 1));
            assert(body.take(i + 1 - 1).last() == ls@[i as int]@);
        }
        let cols = words_of(&ls[i]);
        if cols.len() >= 4 {
            proof {
                assert(cols@[0]@ == views(cols@)[0] && cols@[1]@ == views(cols@)[1]
                    && cols@[2]@ == views(cols@)[2]);
            }
            let name = string_of(&cols[0]);
            let mut value = cols[1].clone();
            crate::text::append_chars(&mut value, &chars_of(" / "));
            crate::text::append_chars(&mut value, &cols[2]);
            let v = string_of(&value);
            r.push((name, v));
            assert(pair_views(r@) =~= pair_views(before).push((name@, v@)));
        }
        i = i + 1;
    }
    assert(body.take(ls@.len() - 1) =~= body);
    r
}

// ---------------------------------------------------------------------
// File descriptors and environment
// ---------------------------------------------------------------------
/// The number an fd entry sorts by: its name as a `u32`, 0 where it is none.
pub open spec fn fd_rank(e: (Seq<char>, Seq<char>)) -> int {
    match parse_u32_spec(e.0) {
        Some(n) => n as int,
        None => 0,
    }
}

/// Inserts `x` into `s` after every entry that does not rank above it.
pub open spec fn insert_fd(s: Seq<(Seq<char>, Seq<char>)>, x: (Seq<char>, Seq<char>)) -> Seq<
    (Seq<char>, Seq<char>),
>
    decreases s.len(),
{
    if s.len() == 0 {
        seq![x]
    } else if fd_rank(s.last()) <= fd_rank(x) {
        s.push(x)
    } else {
        insert_fd(s.drop_last(), x).push(s.last())
    }
}

/// The entries sorted by fd number, entries of equal number in their
/// order (a stable sort).
pub open spec fn sorted_fds(s: Seq<(Seq<char>, Seq<char>)>) -> Seq<(Seq<char>, Seq<char>)>
    decreases s.len(),
{
    if s.len() == 0 {
        seq![]
    } else {
        insert_fd(sorted_fds(s.drop_last()), s.last())
    }
}

/// The rank of an fd entry.
fn fd_rank_of(e: &(String, String)) -> (r: u32)
    ensures
        r as int == fd_rank((e.0@, e.1@)),
{
    match parse_u32(&chars_of(e.0.as_str())) {
        Some(n) => n,
        None => 0,
    }
}

/// A copy of a pair of strings.
fn copy_pair(e: &(String, String)) -> (r: (String, String))
    ensures
        r.0@ == e.0@ && r.1@ == e.1@,
{
    (e.0.clone(), e.1.clone())
}

/// The file descriptors sorted by number (a name that is no number counts
/// as 0; equal numbers keep their order).
pub fn sort_fds(entries: Vec<(String, String)>) -> (r: Vec<(String, String)>)
    ensures
        pair_views(r@) == sorted_fds(pair_views(entries@)),
{
    let mut out: Vec<(String, String)> = Vec::new();
    let mut i: usize = 0;
    while i < entries.len()
        invariant
            i <= entries@.len(),
            pair_views(out@) == sorted_fds(pair_views(entries@).take(i as int)),
        decreases entries@.len() - i,
    {
        let x = copy_pair(&entries[i]);
        let rx = fd_rank_of(&x);
        let ghost xv = (x.0@, x.1@);
        proof {
            assert(pair_views(entries@).take(i + 1).drop_last() =~= pair_views(entries@).take(
                i as int,
            ));
            assert(pair_views(entries@).take(i + 1).last() == xv);
        }
        // find the insertion point from the back
        let mut q = out.len();
        let ghost sorted0 = pair_views(out@);
        assert(sorted0.take(q as int) =~= sorted0);
        assert(sorted0.skip(q as int) =~= Seq::<(Seq<char>, Seq<char>)>::empty());
        assert(insert_fd(sorted0, xv) =~= insert_fd(sorted0.take(q as int), xv) + sorted0.skip(
            q as int,
        ));
        while q > 0 && fd_rank_of(&out[q - 1]) > rx
            invariant
                q <= out@.len(),
                pair_views(out@) == sorted0,
                insert_fd(sorted0, xv) == insert_fd(sorted0.take(q as int), xv) + sorted0.skip(
                    q as int,
                ),
                rx as int == fd_rank(xv),
            decreases q,
        {
            proof {
                let t = sorted0.take(q as int);
                assert(t.drop_last() =~= sorted0.take(q - 1));
                assert(t.last() == sorted0[q - 1]);
                assert(sorted0[q - 1] == (out@[q - 1].0@, out@[q - 1].1@));
                assert(sorted0.skip(q - 1) =~= seq![sorted0[q - 1]] + sorted0.skip(q as int));
                assert(insert_fd(t, xv) == insert_fd(t.drop_last(), xv).push(t.last()));
                assert(insert_fd(t.drop_last(), xv).push(t.last()) + sorted0.skip(q as int)
                    =~= insert_fd(t.drop_last(), xv) + sorted0.skip(q - 1));
            }
            q = q - 1;
        }
        proof {
            let t = sorted0.take(q as int);
            if q > 0 {
                assert(t.last() == sorted0[q - 1]);
                assert(sorted0[q - 1] == (out@[q - 1].0@, out@[q - 1].1@));
                assert(insert_fd(t, xv) == t.push(xv));
            } else {
                assert(t =~= Seq::<(Seq<char>, Seq<char>)>::empty());
                assert(insert_fd(t, xv) == seq![xv]);
            }
        }
        out.insert(q, x);
        proof {
            assert(pair_views(out@) =~= sorted0.take(q as int).push(xv) + sorted0.skip(q as int));
        }
        i = i + 1;
    }
    assert(pair_views(entries@).take(entries@.len() as int) =~= pair_views(entries@));
    out
}

/// The text that `String::from_utf8_lossy` makes of some bytes (invalid
/// sequences become U+FFFD).
pub uninterp spec fn utf8_lossy(b: Seq<u8>) -> Seq<char>;

/// `String::from_utf8_lossy`. The result is named.
#[verifier::external_body]
fn lossy_string(b: &[u8]) -> (r: String)
    ensures
        r@ == utf8_lossy(b@),
{
    String::from_utf8_lossy(b).into_owned()
}

/// The first zero byte at or after `i`.
pub open spec fn zero_from(d: Seq<u8>, i: int) -> Option<int>
    decreases d.len() - i,
{
    if i < 0 || i >= d.len() {
        None
    } else if d[i] == 0 {
        Some(i)
    } else {
        zero_from(d, i + 1)
    }
}

pub proof fn lemma_zero_from(d: Seq<u8>, i: int)
    requires
        0 <= i,
    ensures
        zero_from(d, i) matches Some(j) ==> i <= j < d.len() && d[j] == 0,
    decreases d.len() - i,
{
    if i < d.len() && d[i] != 0 {
        lemma_zero_from(d, i + 1);
    }
}

/// The pieces of `d[i..]` between zero bytes (`<[u8]>::split`).
pub open spec fn chunks_from(d: Seq<u8>, i: int) -> Seq<Seq<u8>>
    decreases d.len() - i,
{
    if i < 0 || i > d.len() {
        seq![]
    } else {
        match zero_from(d, i) {
            Some(j) => if i <= j < d.len() {
                seq![d.subrange(i, j)] + chunks_from(d, j + 1)
            } else {
                seq![]
            },
            None => seq![d.subrange(i, d.len() as int)],
        }
    }
}

/// A `NAME=value` entry of the environment: a non-empty piece, read as
/// UTF-8, split at its first `=`.
pub open spec fn env_entry(chunk: Seq<u8>) -> Option<(Seq<char>, Seq<char>)> {
    if chunk.len() == 0 {
        None
    } else {
        let s = utf8_lossy(chunk);
        match find(s, '=') {
            Some(j) => Some((s.subrange(0, j), s.subrange(j + 1, s.len() as int))),
            None => None,
        }
    }
}

/// The entry of a piece, as a sequence of none or one.
pub open spec fn env_piece(chunk: Seq<u8>) -> Seq<(Seq<char>, Seq<char>)> {
    match env_entry(chunk) {
        Some(e) => seq![e],
        None => seq![],
    }
}

/// The entries of some pieces, in order.
pub open spec fn env_entries(cs: Seq<Seq<u8>>) -> Seq<(Seq<char>, Seq<char>)>
    decreases cs.len(),
{
    if cs.len() == 0 {
        seq![]
    } else {
        env_piece(cs[0]) + env_entries(cs.drop_first())
    }
}

/// Inserts `x` after every entry whose name does not sort after its name.
pub open spec fn insert_env(s: Seq<(Seq<char>, Seq<char>)>, x: (Seq<char>, Seq<char>)) -> Seq<
    (Seq<char>, Seq<char>),
>
    decreases s.len(),
{
    if s.len() == 0 {
        seq![x]
    } else if text_order(s.last().0, x.0) != Order::Greater {
        s.push(x)
    } else {
        insert_env(s.drop_last(), x).push(s.last())
    }
}

/// The entries sorted by name, equal names in their order (a stable sort).
pub open spec fn sorted_env(s: Seq<(Seq<char>, Seq<char>)>) -> Seq<(Seq<char>, Seq<char>)>
    decreases s.len(),
{
    if s.len() == 0 {
        seq![]
    } else {
        insert_env(sorted_env(s.drop_last()), s.last())
    }
}

/// The entries of a `/proc/<pid>/environ` file: its `NAME=value` pieces
/// between zero bytes (empty pieces and pieces without `=` are skipped),
/// sorted by name.
pub open spec fn environ_spec(data: Seq<u8>) -> Seq<(Seq<char>, Seq<char>)> {
    sorted_env(env_entries(chunks_from(data, 0)))
}

/// Splits the text of a piece at its first `=`.
fn env_entry_of(chunk: &Vec<u8>) -> (r: Option<(String, String)>)
    ensures
        match r {
            Some(p) => env_entry(chunk@) == Some((p.0@, p.1@)),
            None => env_entry(chunk@) is None,
        },
{
    if chunk.len() == 0 {
        return None;
    }
    let s = chars_of(lossy_string(chunk.as_slice()).as_str());
    proof {
        crate::text::lemma_find_from_bounds(s@, '=', 0);
    }
    match crate::text::find_char_from(&s, '=', 0) {
        Some(j) => Some(
            (
                string_of(&crate::text::subvec(&s, 0, j)),
                string_of(&crate::text::subvec(&s, j + 1, s.len())),
            ),
        ),
        None => None,
    }
}

/// The environment of a process from the bytes of its `environ` file (see
/// `environ_spec`).
pub fn read_environ(data: &[u8]) -> (r: Vec<(String, String)>)
    requires
        data@.len() < usize::MAX,
    ensures
        pair_views(r@) == environ_spec(data@),
{
    // the entries in file order
    let mut entries: Vec<(String, String)> = Vec::new();
    let mut i: usize = 0;
    let ghost d = data@;
    while i <= data.len()
        invariant
            i <= d.len() + 1,
            d == data@,
            d.len() < usize::MAX,
            i <= d.len() ==> pair_views(entries@) + env_entries(chunks_from(d, i as int))
                == env_entries(chunks_from(d, 0)),
            i > d.len() ==> pair_views(entries@) == env_entries(chunks_from(d, 0)),
        decreases d.len() + 1 - i,
    {
        let ghost before = entries@;
        proof {
            lemma_zero_from(d, i as int);
        }
        let mut chunk: Vec<u8> = Vec::new();
        let mut j = i;
        while j < data.len() && data[j] != 0
            invariant
                i <= j <= d.len(),
                d == data@,
                d.len() < usize::MAX,
                chunk@ == d.subrange(i as int, j as int),
                zero_from(d, i as int) == zero_from(d, j as int),
            decreases d.len() - j,
        {
            chunk.push(data[j]);
            assert(chunk@ =~= d.subrange(i as int, j + 1));
            j = j + 1;
        }
        proof {
            lemma_env_entries_split(d, i as int, j as int);
        }
        match env_entry_of(&chunk) {
            Some(p) => {
                entries.push(p);
                assert(pair_views(entries@) =~= pair_views(before) + env_piece(chunk@));
            },
            None => {
                assert(pair_views(entries@) =~= pair_views(before) + env_piece(chunk@));
            },
        }
        proof {
            let rest = env_entries(chunks_from(d, j + 1));
            assert(pair_views(before) + (env_piece(chunk@) + rest) =~= pair_views(entries@)
                + rest);
            if j + 1 > d.len() {
                assert(chunks_from(d, j + 1) == Seq::<Seq<u8>>::empty());
                assert(pair_views(entries@) + rest =~= pair_views(entries@));
            }
        }
        i = j + 1;
    }
    // stable sort by name
    let mut out: Vec<(String, String)> = Vec::new();
    let mut k: usize = 0;
    while k < entries.len()
        invariant
            k <= entries@.len(),
            pair_views(out@) == sorted_env(pair_views(entries@).take(k as int)),
        decreases entries@.len() - k,
    {
        let x = copy_pair(&entries[k]);
        let ghost xv = (x.0@, x.1@);
        let xk = chars_of(x.0.as_str());
        proof {
            assert(pair_views(entries@).take(k + 1).drop_last() =~= pair_views(entries@).take(
                k as int,
            ));
            assert(pair_views(entries@).take(k + 1).last() == xv);
        }
        let mut q = out.len();
        let ghost sorted0 = pair_views(out@);
        assert(sorted0.take(q as int) =~= sorted0);
        assert(sorted0.skip(q as int) =~= Seq::<(Seq<char>, Seq<char>)>::empty());
        assert(insert_env(sorted0, xv) =~= insert_env(sorted0.take(q as int), xv) + sorted0.skip(
            q as int,
        ));
        while q > 0 && compare_text(&chars_of(out[q - 1].0.as_str()), &xk) == Order::Greater
            invariant
                q <= out@.len(),
                pair_views(out@) == sorted0,
                xk@ == xv.0,
                insert_env(sorted0, xv) == insert_env(sorted0.take(q as int), xv) + sorted0.skip(
                    q as int,
                ),
            decreases q,
        {
            proof {
                let t = sorted0.take(q as int);
                assert(t.drop_last() =~= sorted0.take(q - 1));
                assert(t.last() == sorted0[q - 1]);
                assert(sorted0[q - 1] == (out@[q - 1].0@, out@[q - 1].1@));
                assert(insert_env(t, xv) == insert_env(t.drop_last(), xv).push(t.last()));
                assert(insert_env(t.drop_last(), xv).push(t.last()) + sorted0.skip(q as int)
                    =~= insert_env(t.drop_last(), xv) + sorted0.skip(q - 1));
            }
            q = q - 1;
        }
        proof {
            let t = sorted0.take(q as int);
            if q > 0 {
                assert(t.last() == sorted0[q - 1]);
                assert(sorted0[q - 1] == (out@[q - 1].0@, out@[q - 1].1@));
                assert(insert_env(t, xv) == t.push(xv));
            } else {
                assert(t =~= Seq::<(Seq<char>, Seq<char>)>::empty());
                assert(insert_env(t, xv) == seq![xv]);
            }
        }
        out.insert(q, x);
        proof {
            assert(pair_views(out@) =~= sorted0.take(q as int).push(xv) + sorted0.skip(q as int));
        }
        k = k + 1;
    }
    assert(pair_views(entries@).take(entries@.len() as int) =~= pair_views(entries@));
    out
}

/// One step of the piece-by-piece reading of the environment: the piece
/// that starts at `i` ends at `j`.
proof fn lemma_env_entries_split(d: Seq<u8>, i: int, j: int)
    requires
        0 <= i <= j <= d.len(),
        zero_from(d, i) == zero_from(d, j),
        j == d.len() || d[j] == 0,
    ensures
        env_entries(chunks_from(d, i)) == env_piece(d.subrange(i, j)) + env_entries(
            chunks_from(d, j + 1),
        ),
{
    lemma_zero_from(d, i);
    if j < d.len() {
        assert(zero_from(d, j) == Some(j));
        let cs = chunks_from(d, i);
        assert(cs == seq![d.subrange(i, j)] + chunks_from(d, j + 1));
        assert(cs.drop_first() =~= chunks_from(d, j + 1));
    } else {
        assert(zero_from(d, j) is None);
        let cs = chunks_from(d, i);
        assert(cs == seq![d.subrange(i, d.len() as int)]);
        assert(cs.drop_first() =~= Seq::<Seq<u8>>::empty());
        assert(chunks_from(d, j + 1) == Seq::<Seq<u8>>::empty());
        assert(env_entries(cs.drop_first()) == Seq::<(Seq<char>, Seq<char>)>::empty());
        assert(env_piece(d.subrange(i, j)) + Seq::<(Seq<char>, Seq<char>)>::empty() =~= env_piece(d.subrange(i, j)));
    }
}

/// The pieces from `i` on: the piece that ends at `j`, then the rest.
pub proof fn lemma_chunks_split(d: Seq<u8>, i: int, j: int)
    requires
        0 <= i <= j <= d.len(),
        zero_from(d, i) == zero_from(d, j),
        j == d.len() || d[j] == 0,
    ensures
        chunks_from(d, i) == seq![d.subrange(i, j)] + chunks_from(d, j + 1),
{
    lemma_zero_from(d, i);
    if j < d.len() {
        assert(zero_from(d, j) == Some(j));
    } else {
        assert(zero_from(d, j) is None);
        assert(chunks_from(d, j + 1) == Seq::<Seq<u8>>::empty());
        assert(seq![d.subrange(i, j)] + Seq::<Seq<u8>>::empty() =~= seq![d.subrange(i, j)]);
    }
}

} // verus!
