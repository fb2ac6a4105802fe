//! Electron process trees, application names and inherited icons.

use crate::data::model::ProcessInfo;
use std::collections::{HashMap, HashSet};
use crate::text::{
    chars_of, contains_chars, contains_seq, lowercase, string_of, subvec, to_lowercase, views,
    words, words_of,
};
use vstd::prelude::*;

verus! {

broadcast use vstd::std_specs::hash::group_hash_axioms;

// ---------------------------------------------------------------------
// Paths and case
// ---------------------------------------------------------------------
/// The parent that `Path::parent` gives the path `s`.
pub uninterp spec fn path_parent(s: Seq<char>) -> Option<Seq<char>>;

/// The last component that `Path::file_name` gives the path `s`.
pub uninterp spec fn path_file_name(s: Seq<char>) -> Option<Seq<char>>;

/// The file name without its extension that `Path::file_stem` gives.
pub uninterp spec fn path_file_stem(s: Seq<char>) -> Option<Seq<char>>;

/// The upper-case form of a character as `char::to_uppercase` gives it
/// (one character may map to several).
pub uninterp spec fn uppercase_char(c: char) -> Seq<char>;

/// The view of an optional string.
pub open spec fn opt_view(o: Option<String>) -> Option<Seq<char>> {
    match o {
        Some(s) => Some(s@),
        None => None,
    }
}

/// `Path::new(s).parent()`, as a string. The result is named.
#[verifier::external_body]
fn parent_of(s: &str) -> (r: Option<String>)
    ensures
        opt_view(r) == path_parent(s@),
{
    std::path::Path::new(s).parent().and_then(|p| p.to_str()).map(|p| p.to_string())
}

/// `Path::new(s).file_name()`, as a string. The result is named.
#[verifier::external_body]
pub(crate) fn file_name_of(s: &str) -> (r: Option<String>)
    ensures
        opt_view(r) == path_file_name(s@),
{
    std::path::Path::new(s).file_name().and_then(|n| n.to_str()).map(|n| n.to_string())
}

/// `Path::new(s).file_stem()`, as a string. The result is named.
#[verifier::external_body]
fn file_stem_of(s: &str) -> (r: Option<String>)
    ensures
        opt_view(r) == path_file_stem(s@),
{
    std::path::Path::new(s).file_stem().and_then(|n| n.to_str()).map(|n| n.to_string())
}

/// `char::to_uppercase`, collected. The result is named.
#[verifier::external_body]
fn uppercase_of(c: char) -> (r: String)
    ensures
        r@ == uppercase_char(c),
{
    c.to_uppercase().to_string()
}

/// The first character upper-cased and the rest lower-cased.
pub open spec fn capitalize_spec(s: Seq<char>) -> Seq<char> {
    if s.len() == 0 {
        seq![]
    } else {
        uppercase_char(s[0]) + lowercase(s.drop_first())
    }
}

/// Upper-cases the first character and lower-cases the rest.
pub fn capitalize(s: &str) -> (r: String)
    ensures
        r@ == capitalize_spec(s@),
{
    let chars = chars_of(s);
    if chars.len() == 0 {
        return String::new();
    }
    let first = uppercase_of(chars[0]);
    let rest = string_of(&subvec(&chars, 1, chars.len()));
    let lower = to_lowercase(rest.as_str());
    let mut out = chars_of(first.as_str());
    crate::text::append_chars(&mut out, &chars_of(lower.as_str()));
    assert(chars@.subrange(1, chars@.len() as int) =~= s@.drop_first());
    string_of(&out)
}

// ---------------------------------------------------------------------
// Application names
// ---------------------------------------------------------------------
/// The name of the directory that holds `part`.
pub open spec fn parent_dir_name(part: Seq<char>) -> Option<Seq<char>> {
    match path_parent(part) {
        Some(p) => path_file_name(p),
        None => None,
    }
}

/// The application name that the arguments from `parts[i]` on show: the
/// first argument that is no flag and holds a path gives the name of its
/// directory, unless that is an electron or `node_modules` directory, or
/// else its file stem, unless that names electron.
pub open spec fn app_name_from(parts: Seq<Seq<char>>, i: int) -> Option<Seq<char>>
    decreases parts.len() - i,
{
    if i < 0 || i >= parts.len() {
        None
    } else {
        let part = parts[i];
        if part.len() > 0 && part[0] == '-' {
            app_name_from(parts, i + 1)
        } else if contains_seq(part, "/"@) {
            let from_dir = match parent_dir_name(part) {
                Some(d) => {
                    let lower = lowercase(d);
                    if !contains_seq(lower, "electron"@) && lower != "node_modules"@ {
                        Some(capitalize_spec(d))
                    } else {
                        None
                    }
                },
                None => None,
            };
            match from_dir {
                Some(x) => Some(x),
                None => match path_file_stem(part) {
                    Some(stem) => if !contains_seq(lowercase(stem), "electron"@) {
                        Some(capitalize_spec(stem))
                    } else {
                        app_name_from(parts, i + 1)
                    },
                    None => app_name_from(parts, i + 1),
                },
            }
        } else {
            app_name_from(parts, i + 1)
        }
    }
}

/// The application name of an electron process.
pub open spec fn app_name_spec(cmdline: Seq<char>, name: Seq<char>) -> Seq<char> {
    if !contains_seq(lowercase(name), "electron"@) {
        name
    } else {
        let parts = words(cmdline);
        match app_name_from(parts, 1) {
            Some(x) => x,
            None => if parts.len() > 0 && contains_seq(parts[0], "/"@) {
                match path_file_name(parts[0]) {
                    Some(n) => capitalize_spec(n),
                    None => name,
                }
            } else {
                name
            },
        }
    }
}

/// A process named like electron has at least one command-line word.
pub open spec fn app_name_defined(cmdline: Seq<char>, name: Seq<char>) -> bool {
    contains_seq(lowercase(name), "electron"@) ==> words(cmdline).len() >= 1
}

/// The name an electron application goes by: a process not named like
/// electron keeps its name; otherwise the first path argument after the
/// binary names it (its directory, or its file stem), or else the binary's
/// file name, or else the process name.
pub fn extract_electron_app_name(cmdline: &str, name: &str) -> (r: String)
    requires
        app_name_defined(cmdline@, name@),
    ensures
        r@ == app_name_spec(cmdline@, name@),
{
    let lower_name = to_lowercase(name);
    if !contains_chars(&chars_of(lower_name.as_str()), &chars_of("electron")) {
        return string_of(&chars_of(name));
    }
    let parts = words_of(&chars_of(cmdline));
    let ghost ps = views(parts@);
    let mut i: usize = 1;
    while i < parts.len()
        invariant
            1 <= i,
            ps == views(parts@),
            ps == words(cmdline@),
            contains_seq(lowercase(name@), "electron"@),
            app_name_from(ps, 1) == app_name_from(ps, i as int),
        decreases parts@.len() - i,
    {
        let part = &parts[i];
        assert(part@ == ps[i as int]);
        if part.len() > 0 && part[0] == '-' {
            i = i + 1;
            continue;
        }
        if contains_chars(part, &chars_of("/")) {
            let part_s = string_of(part);
            let dir = match parent_of(part_s.as_str()) {
                Some(p) => file_name_of(p.as_str()),
                None => None,
            };
            assert(opt_view(dir) == parent_dir_name(ps[i as int]));
            if let Some(d) = dir {
                let lower = to_lowercase(d.as_str());
                let lc = chars_of(lower.as_str());
                if !contains_chars(&lc, &chars_of("electron")) && !crate::text::chars_eq(
                    &lc,
                    &chars_of("node_modules"),
                ) {
                    return capitalize(d.as_str());
                }
            }
            if let Some(stem) = file_stem_of(part_s.as_str()) {
                let lower = to_lowercase(stem.as_str());
                if !contains_chars(&chars_of(lower.as_str()), &chars_of("electron")) {
                    return capitalize(stem.as_str());
                }
            }
        }
        i = i + 1;
    }
    if parts.len() > 0 && contains_chars(&parts[0], &chars_of("/")) {
        let bin = string_of(&parts[0]);
        if let Some(n) = file_name_of(bin.as_str()) {
            return capitalize(n.as_str());
        }
    }
    string_of(&chars_of(name))
}

// ---------------------------------------------------------------------
// Electron trees
// ---------------------------------------------------------------------
/// An electron subprocess: its command line holds `--type=`.
pub open spec fn is_electron_sub(p: ProcessInfo) -> bool {
    contains_seq(p.command@, "--type="@)
}

/// The pids of the electron subprocesses.
pub open spec fn subs_of(pids: Map<i32, ProcessInfo>) -> Set<i32> {
    Set::new(|pid: i32| pids.contains_key(pid) && is_electron_sub(pids[pid]))
}

/// Walks up from `cur` (for at most `fuel` steps) while the parent is an
/// electron subprocess; gives the root of the tree: the first parent that is
/// none, or the process where the walk ends (`start` where it names no
/// process).
pub open spec fn root_walk(
    pids: Map<i32, ProcessInfo>,
    subs: Set<i32>,
    start: i32,
    cur: i32,
    fuel: nat,
) -> Option<i32>
    decreases fuel,
{
    if fuel == 0 {
        None
    } else if !pids.contains_key(cur) {
        Some(start)
    } else {
        let ppid = pids[cur].ppid;
        if ppid == 0 || ppid == cur {
            Some(cur)
        } else if !pids.contains_key(ppid) {
            Some(cur)
        } else if !subs.contains(ppid) && !is_electron_sub(pids[ppid]) {
            Some(ppid)
        } else {
            root_walk(pids, subs, start, ppid, (fuel - 1) as nat)
        }
    }
}

/// The pids that the walk from `cur` passes, its root included.
pub open spec fn mark_walk(pids: Map<i32, ProcessInfo>, subs: Set<i32>, cur: i32, fuel: nat) -> Set<i32>
    decreases fuel,
{
    if fuel == 0 || !pids.contains_key(cur) {
        Set::empty()
    } else {
        let ppid = pids[cur].ppid;
        if ppid == 0 || ppid == cur || !pids.contains_key(ppid) {
            set![cur]
        } else if !subs.contains(ppid) && !is_electron_sub(pids[ppid]) {
            set![cur, ppid]
        } else {
            mark_walk(pids, subs, ppid, (fuel - 1) as nat).insert(cur)
        }
    }
}

/// The root of the electron tree of `pid`, where the walk ends.
pub open spec fn electron_root_spec(pids: Map<i32, ProcessInfo>, subs: Set<i32>, pid: i32) -> Option<
    i32,
> {
    root_walk(pids, subs, pid, pid, pids.len() + 1)
}

/// The root of the electron tree that `pid` belongs to: walking up from
/// `pid` while the parent is an electron subprocess (or holds `--type=`),
/// the first parent that is not; the process itself where its parent is 0,
/// itself, or unknown; `pid` where it names no process.
pub fn find_electron_root(
    pid: i32,
    electron_subs: &HashSet<i32>,
    pids: &HashMap<i32, ProcessInfo>,
) -> (r: i32)
    requires
        electron_root_spec(pids@, electron_subs@, pid) is Some,
    ensures
        Some(r) == electron_root_spec(pids@, electron_subs@, pid),
{
    match electron_root_checked(pid, electron_subs, pids) {
        Some(r) => r,
        None => pid,
    }
}

/// The root of the electron tree of `pid` (see `find_electron_root`), or
/// `None` where the walk up does not end within one step per process (a
/// parent cycle among electron subprocesses).
pub fn electron_root_checked(
    pid: i32,
    electron_subs: &HashSet<i32>,
    pids: &HashMap<i32, ProcessInfo>,
) -> (r: Option<i32>)
    ensures
        r == electron_root_spec(pids@, electron_subs@, pid),
{
    let mut current = pid;
    let mut fuel: u128 = pids.len() as u128 + 1;
    let ghost total = (pids@.len() + 1) as nat;
    assert(fuel == total);
    assert(electron_root_spec(pids@, electron_subs@, pid) == root_walk(
        pids@,
        electron_subs@,
        pid,
        pid,
        total,
    ));
    while fuel > 0
        invariant
            root_walk(pids@, electron_subs@, pid, pid, total) == root_walk(
                pids@,
                electron_subs@,
                pid,
                current,
                fuel as nat,
            ),
            electron_root_spec(pids@, electron_subs@, pid) == root_walk(
                pids@,
                electron_subs@,
                pid,
                pid,
                total,
            ),
        decreases fuel,
    {
        let proc = match pids.get(&current) {
            Some(p) => p,
            None => {
                assert(!pids@.contains_key(current));
                assert(root_walk(pids@, electron_subs@, pid, current, fuel as nat) == Some(pid));
                return Some(pid);
            },
        };
        let ppid = proc.ppid;
        if ppid == 0 || ppid == current {
            return Some(current);
        }
        let parent = match pids.get(&ppid) {
            Some(p) => p,
            None => {
                return Some(current);
            },
        };
        if !electron_subs.contains(&ppid) && !contains_chars(
            &chars_of(parent.command.as_str()),
            &chars_of("--type="),
        ) {
            return Some(ppid);
        }
        current = ppid;
        fuel = fuel - 1;
    }
    None
}

/// The electron subprocesses: the processes whose command line holds
/// `--type=`.
pub fn electron_subprocesses(pids: &HashMap<i32, ProcessInfo>) -> (r: HashSet<i32>)
    ensures
        r@ == subs_of(pids@),
{
    let ghost keys = vstd::std_specs::iter::IteratorSpec::remaining(
        &vstd::std_specs::hash::spec_keys_iter(pids),
    ).unref();
    let mut subs: HashSet<i32> = HashSet::new();
    let ghost mut seen: Seq<i32> = seq![];
    for k in it: pids.keys()
        invariant
            it.seq() == vstd::std_specs::iter::IteratorSpec::remaining(
                &vstd::std_specs::hash::spec_keys_iter(pids),
            ),
            it.seq().unref() == keys,
            keys.to_set() == pids@.dom(),
            seen == keys.take(it.index() as int),
            subs@ == Set::new(|pid: i32| seen.contains(pid) && is_electron_sub(pids@[pid])),
    {
        let pid = *k;
        let ghost before = seen;
        proof {
            assert(keys.to_set().contains(pid));
        }
        let is_sub = match pids.get(&pid) {
            Some(p) => contains_chars(&chars_of(p.command.as_str()), &chars_of("--type=")),
            None => false,
        };
        assert(is_sub == is_electron_sub(pids@[pid]));
        if is_sub {
            subs.insert(pid);
        }
        proof {
            let ghost old_subs = Set::new(|q: i32| before.contains(q) && is_electron_sub(pids@[q]));
            seen = seen.push(pid);
            assert forall|q: i32|
                subs@.contains(q) <==> (seen.contains(q) && is_electron_sub(pids@[q])) by {
                if seen.contains(q) && q != pid {
                    let k = choose|k: int| 0 <= k < seen.len() && seen[k] == q;
                    assert(before[k] == q);
                }
                if before.contains(q) {
                    let k = choose|k: int| 0 <= k < before.len() && before[k] == q;
                    assert(seen[k] == q);
                }
                assert(seen[before.len() as int] == pid);
            }
            assert(subs@ =~= Set::new(|q: i32| seen.contains(q) && is_electron_sub(pids@[q])));
        }
    }
    proof {
        assert(seen == keys);
        assert forall|q: i32| subs@.contains(q) <==> subs_of(pids@).contains(q) by {
            if pids@.contains_key(q) {
                assert(keys.to_set().contains(q));
            }
            if seen.contains(q) {
                assert(keys.to_set().contains(q));
            }
        }
        assert(subs@ =~= subs_of(pids@));
    }
    subs
}

/// Every walk from an electron subprocess ends (no parent cycle of
/// electron processes).
pub open spec fn walks_end(pids: Map<i32, ProcessInfo>) -> bool {
    forall|s: i32| #[trigger] subs_of(pids).contains(s) ==> electron_root_spec(pids, subs_of(pids), s) is Some
}

/// The pids that walks from electron subprocesses to their roots pass.
pub open spec fn marked_spec(pids: Map<i32, ProcessInfo>) -> Set<i32> {
    Set::new(
        |q: i32|
            exists|s: i32|
                subs_of(pids).contains(s) && #[trigger] mark_walk(
                    pids,
                    subs_of(pids),
                    s,
                    pids.len() + 1,
                ).contains(q),
    )
}

/// The roots of the electron trees.
pub open spec fn roots_spec(pids: Map<i32, ProcessInfo>) -> Set<i32> {
    Set::new(
        |r: i32|
            exists|s: i32|
                subs_of(pids).contains(s) && #[trigger] electron_root_spec(pids, subs_of(pids), s)
                    == Some(r),
    )
}

/// Pushing adds exactly the pushed value.
proof fn lemma_push_contains(s: Seq<i32>, x: i32)
    ensures
        forall|q: i32| #[trigger] s.push(x).contains(q) <==> (s.contains(q) || q == x),
{
    assert forall|q: i32| #[trigger] s.push(x).contains(q) <==> (s.contains(q) || q == x) by {
        if s.contains(q) {
            let k = choose|k: int| 0 <= k < s.len() && s[k] == q;
            assert(s.push(x)[k] == q);
        }
        if q == x {
            assert(s.push(x)[s.len() as int] == x);
        }
        if s.push(x).contains(q) && q != x {
            let k = choose|k: int| 0 <= k < s.len() + 1 && s.push(x)[k] == q;
            assert(k < s.len());
            assert(s[k] == q);
        }
    }
}

proof fn lemma_mark_step(all: Set<i32>, o: Seq<i32>, rest: Set<i32>, m: Set<i32>, x: i32)
    requires
        forall|q: i32| all.contains(q) <==> (o.contains(q) || m.contains(q)),
        m == rest.insert(x),
    ensures
        forall|q: i32| all.contains(q) <==> (o.push(x).contains(q) || rest.contains(q)),
{
    lemma_push_contains(o, x);
    assert forall|q: i32| all.contains(q) <==> (o.push(x).contains(q) || rest.contains(q)) by {
        assert(all.contains(q) <==> (o.contains(q) || m.contains(q)));
        assert(o.push(x).contains(q) <==> (o.contains(q) || q == x));
    }
}

/// The pids the walk from `start` to its root passes, root included.
fn marks_from(start: i32, subs: &HashSet<i32>, pids: &HashMap<i32, ProcessInfo>) -> (r: Vec<i32>)
    requires
        root_walk(pids@, subs@, start, start, pids@.len() + 1) is Some,
    ensures
        forall|q: i32| r@.contains(q) <==> mark_walk(pids@, subs@, start, pids@.len() + 1).contains(q),
{
    let ghost total = (pids@.len() + 1) as nat;
    let mut out: Vec<i32> = Vec::new();
    let mut cur = start;
    let mut fuel: u128 = pids.len() as u128 + 1;
    assert(fuel == total);
    while fuel > 0
        invariant
            total == pids@.len() + 1,
            root_walk(pids@, subs@, start, cur, fuel as nat) is Some,
            forall|q: i32|
                mark_walk(pids@, subs@, start, total).contains(q) <==> (out@.contains(q)
                    || mark_walk(pids@, subs@, cur, fuel as nat).contains(q)),
        decreases fuel,
    {
        let ghost f = fuel as nat;
        let ghost before = out@;
        let proc = match pids.get(&cur) {
            Some(p) => p,
            None => {
                assert(mark_walk(pids@, subs@, cur, f) =~= Set::<i32>::empty());
                return out;
            },
        };
        let ppid = proc.ppid;
        proof {
            lemma_push_contains(before, cur);
        }
        if ppid == 0 || ppid == cur {
            out.push(cur);
            assert(mark_walk(pids@, subs@, cur, f) =~= set![cur]);
            return out;
        }
        match pids.get(&ppid) {
            None => {
                out.push(cur);
                assert(mark_walk(pids@, subs@, cur, f) =~= set![cur]);
                return out;
            },
            Some(parent) => {
                if !subs.contains(&ppid) && !contains_chars(
                    &chars_of(parent.command.as_str()),
                    &chars_of("--type="),
                ) {
                    out.push(cur);
                    proof {
                        lemma_push_contains(out@, ppid);
                    }
                    out.push(ppid);
                    assert(mark_walk(pids@, subs@, cur, f) =~= set![cur, ppid]);
                    assert(out@ == before.push(cur).push(ppid));
                    assert forall|q: i32|
                        out@.contains(q) <==> mark_walk(pids@, subs@, start, total).contains(q) by {
                        assert(before.push(cur).push(ppid).contains(q) <==> (before.push(cur).contains(q)
                            || q == ppid));
                        assert(before.push(cur).contains(q) <==> (before.contains(q) || q == cur));
                        assert(mark_walk(pids@, subs@, start, total).contains(q) <==> (before.contains(q)
                            || mark_walk(pids@, subs@, cur, f).contains(q)));
                    }
                    return out;
                }
            },
        }
        proof {
            lemma_mark_step(
                mark_walk(pids@, subs@, start, total),
                before,
                mark_walk(pids@, subs@, ppid, (f - 1) as nat),
                mark_walk(pids@, subs@, cur, f),
                cur,
            );
        }
        out.push(cur);
        cur = ppid;
        fuel = fuel - 1;
    }
    out
}

/// The roots of the electron trees.
pub fn electron_roots(pids: &HashMap<i32, ProcessInfo>) -> (r: HashSet<i32>)
    requires
        walks_end(pids@),
    ensures
        r@ == roots_spec(pids@),
{
    let subs = electron_subprocesses(pids);
    let ghost all = vstd::std_specs::iter::IteratorSpec::remaining(
        &vstd::std_specs::hash::spec_hash_keys_iter(&subs),
    ).unref();
    let mut roots: HashSet<i32> = HashSet::new();
    let ghost mut seen: Seq<i32> = seq![];
    for s in it: subs.iter()
        invariant
            it.seq() == vstd::std_specs::iter::IteratorSpec::remaining(
                &vstd::std_specs::hash::spec_hash_keys_iter(&subs),
            ),
            it.seq().unref() == all,
            all.to_set() == subs@,
            subs@ == subs_of(pids@),
            walks_end(pids@),
            seen == all.take(it.index() as int),
            roots@ == Set::new(
                |r: i32|
                    exists|k: int|
                        0 <= k < seen.len() && electron_root_spec(pids@, subs@, seen[k]) == Some(r),
            ),
    {
        let sub = *s;
        proof {
            assert(all.to_set().contains(sub));
            assert(subs_of(pids@).contains(sub));
        }
        let r = find_electron_root(sub, &subs, pids);
        roots.insert(r);
        proof {
            let before = seen;
            seen = seen.push(sub);
            assert forall|x: i32|
                roots@.contains(x) <==> exists|k: int|
                    0 <= k < seen.len() && electron_root_spec(pids@, subs@, seen[k]) == Some(x) by {
                if x == r {
                    assert(seen[before.len() as int] == sub);
                }
                if exists|k: int|
                    0 <= k < seen.len() && electron_root_spec(pids@, subs@, seen[k]) == Some(x) {
                    let k = choose|k: int|
                        0 <= k < seen.len() && electron_root_spec(pids@, subs@, seen[k]) == Some(x);
                    if k < before.len() {
                        assert(before[k] == seen[k]);
                    }
                }
                if roots@.contains(x) && x != r {
                    let k = choose|k: int|
                        0 <= k < before.len() && electron_root_spec(pids@, subs@, before[k])
                            == Some(x);
                    assert(seen[k] == before[k]);
                }
            }
            assert(roots@ =~= Set::new(
                |x: i32|
                    exists|k: int|
                        0 <= k < seen.len() && electron_root_spec(pids@, subs@, seen[k]) == Some(x),
            ));
        }
    }
    proof {
        assert(seen == all);
        assert forall|x: i32| roots@.contains(x) <==> roots_spec(pids@).contains(x) by {
            if roots@.contains(x) {
                let k = choose|k: int|
                    0 <= k < all.len() && electron_root_spec(pids@, subs@, all[k]) == Some(x);
                assert(all.to_set().contains(all[k]));
            }
            if roots_spec(pids@).contains(x) {
                let s = choose|s: i32|
                    subs_of(pids@).contains(s) && electron_root_spec(pids@, subs_of(pids@), s)
                        == Some(x);
                assert(all.to_set().contains(s));
                let k = choose|k: int| 0 <= k < all.len() && all[k] == s;
                assert(electron_root_spec(pids@, subs@, all[k]) == Some(x));
            }
        }
        assert(roots@ =~= roots_spec(pids@));
    }
    roots
}

/// The text of the executable recorded for `r` (empty where none is).
pub open spec fn exe_text(exes: Map<i32, String>, r: i32) -> Seq<char> {
    if exes.contains_key(r) {
        exes[r]@
    } else {
        seq![]
    }
}

/// A root runs electron: its executable names electron, or one of its
/// subprocesses runs an `.asar` archive.
pub open spec fn real_root(pids: Map<i32, ProcessInfo>, exes: Map<i32, String>, r: i32) -> bool {
    contains_seq(exe_text(exes, r), "electron"@) || exists|s: i32|
        #![trigger subs_of(pids).contains(s)]
        subs_of(pids).contains(s) && electron_root_spec(pids, subs_of(pids), s) == Some(r)
            && contains_seq(pids[s].command@, ".asar"@)
}

/// The root that decides for process `p`: its tree's root for a
/// subprocess, the process itself otherwise.
pub open spec fn tree_root_of(pids: Map<i32, ProcessInfo>, p: i32) -> i32 {
    if subs_of(pids).contains(p) {
        match electron_root_spec(pids, subs_of(pids), p) {
            Some(r) => r,
            None => p,
        }
    } else {
        p
    }
}

/// Whether process `p` is marked electron afterwards.
pub open spec fn electron_after(
    pids: Map<i32, ProcessInfo>,
    exes: Map<i32, String>,
    check_real: bool,
    p: i32,
) -> bool {
    pids[p].is_electron || (marked_spec(pids).contains(p) && (!check_real || real_root(
        pids,
        exes,
        tree_root_of(pids, p),
    )))
}

/// The application name of process `p` afterwards: a root without one
/// gets the name its command line shows.
pub open spec fn app_name_after(pids: Map<i32, ProcessInfo>, p: i32) -> Option<Seq<char>> {
    if roots_spec(pids).contains(p) && pids[p].electron_app_name is None {
        Some(app_name_spec(pids[p].command@, pids[p].name@))
    } else {
        opt_view(pids[p].electron_app_name)
    }
}

/// The records agree but for the electron flag and application name.
pub open spec fn same_but_electron(a: ProcessInfo, b: ProcessInfo) -> bool {
    &&& a.pid == b.pid
    &&& a.ppid == b.ppid
    &&& a.name == b.name
    &&& a.user == b.user
    &&& a.state == b.state
    &&& a.command == b.command
    &&& a.cgroup == b.cgroup
    &&& a.mem_rss == b.mem_rss
    &&& a.vram_bytes == b.vram_bytes
    &&& a.is_gui == b.is_gui
    &&& a.is_kthread == b.is_kthread
    &&& a.is_owned_by_current_user == b.is_owned_by_current_user
    &&& a.icon_name == b.icon_name
    &&& a.has_children == b.has_children
    &&& a.keys == b.keys
}

/// The roots without an application name have a command line to take it
/// from.
pub open spec fn root_names_defined(pids: Map<i32, ProcessInfo>) -> bool {
    forall|r: i32|
        #[trigger] roots_spec(pids).contains(r) && pids.contains_key(r)
            && pids[r].electron_app_name is None ==> app_name_defined(
            pids[r].command@,
            pids[r].name@,
        )
}

/// The elements of a set, each once.
fn set_elements(set: &HashSet<i32>) -> (r: Vec<i32>)
    ensures
        r@.to_set() == set@,
        r@.no_duplicates(),
{
    let ghost all = vstd::std_specs::iter::IteratorSpec::remaining(
        &vstd::std_specs::hash::spec_hash_keys_iter(set),
    ).unref();
    let mut out: Vec<i32> = Vec::new();
    for x in it: set.iter()
        invariant
            it.seq() == vstd::std_specs::iter::IteratorSpec::remaining(
                &vstd::std_specs::hash::spec_hash_keys_iter(set),
            ),
            it.seq().unref() == all,
            all.to_set() == set@,
            all.no_duplicates(),
            out@ == all.take(it.index() as int),
    {
        out.push(*x);
    }
    assert(out@ == all);
    out
}

/// The keys of a map, each once.
pub(crate) fn map_keys(map: &HashMap<i32, ProcessInfo>) -> (r: Vec<i32>)
    ensures
        r@.to_set() == map@.dom(),
        r@.no_duplicates(),
{
    let ghost all = vstd::std_specs::iter::IteratorSpec::remaining(
        &vstd::std_specs::hash::spec_keys_iter(map),
    ).unref();
    let mut out: Vec<i32> = Vec::new();
    for x in it: map.keys()
        invariant
            it.seq() == vstd::std_specs::iter::IteratorSpec::remaining(
                &vstd::std_specs::hash::spec_keys_iter(map),
            ),
            it.seq().unref() == all,
            all.to_set() == map@.dom(),
            all.no_duplicates(),
            out@ == all.take(it.index() as int),
    {
        out.push(*x);
    }
    assert(out@ == all);
    out
}

/// Marks the processes of electron trees and names their roots' apps.
fn apply_electron(
    pid_to_proc: &mut HashMap<i32, ProcessInfo>,
    root_exes: &HashMap<i32, String>,
    check_real: bool,
)
    requires
        walks_end(old(pid_to_proc)@),
        root_names_defined(old(pid_to_proc)@),
    ensures
        final(pid_to_proc)@.dom() == old(pid_to_proc)@.dom(),
        forall|p: i32|
            #[trigger] old(pid_to_proc)@.contains_key(p) ==> same_but_electron(
                final(pid_to_proc)@[p],
                old(pid_to_proc)@[p],
            ) && final(pid_to_proc)@[p].is_electron == electron_after(
                old(pid_to_proc)@,
                root_exes@,
                check_real,
                p,
            ) && opt_view(final(pid_to_proc)@[p].electron_app_name) == app_name_after(
                old(pid_to_proc)@,
                p,
            ),
{
    let ghost orig = pid_to_proc@;
    let subs = electron_subprocesses(pid_to_proc);
    let sub_list = set_elements(&subs);
    let mut sub_roots: Vec<i32> = Vec::new();
    let mut sub_marks: Vec<Vec<i32>> = Vec::new();
    let mut j: usize = 0;
    while j < sub_list.len()
        invariant
            pid_to_proc@ == orig,
            subs@ == subs_of(orig),
            sub_list@.to_set() == subs@,
            walks_end(orig),
            j <= sub_list@.len(),
            sub_roots@.len() == j,
            sub_marks@.len() == j,
            forall|k: int|
                0 <= k < j ==> Some(#[trigger] sub_roots@[k]) == electron_root_spec(
                    orig,
                    subs@,
                    sub_list@[k],
                ),
            forall|k: int|
                0 <= k < j ==> forall|q: i32|
                    (#[trigger] sub_marks@[k]@).contains(q) <==> mark_walk(
                        orig,
                        subs@,
                        sub_list@[k],
                        orig.len() + 1,
                    ).contains(q),
        decreases sub_list@.len() - j,
    {
        let sub = sub_list[j];
        proof {
            assert(sub_list@.to_set().contains(sub));
        }
        let r = find_electron_root(sub, &subs, pid_to_proc);
        let m = marks_from(sub, &subs, pid_to_proc);
        sub_roots.push(r);
        sub_marks.push(m);
        j = j + 1;
    }
    let keys = map_keys(pid_to_proc);
    let mut i: usize = 0;
    while i < keys.len()
        invariant
            subs@ == subs_of(orig),
            sub_list@.to_set() == subs@,
            sub_roots@.len() == sub_list@.len(),
            sub_marks@.len() == sub_list@.len(),
            forall|k: int|
                0 <= k < sub_list@.len() ==> Some(#[trigger] sub_roots@[k]) == electron_root_spec(
                    orig,
                    subs@,
                    sub_list@[k],
                ),
            forall|k: int|
                0 <= k < sub_list@.len() ==> forall|q: i32|
                    (#[trigger] sub_marks@[k]@).contains(q) <==> mark_walk(
                        orig,
                        subs@,
                        sub_list@[k],
                        orig.len() + 1,
                    ).contains(q),
            root_names_defined(orig),
            keys@.to_set() == orig.dom(),
            keys@.no_duplicates(),
            i <= keys@.len(),
            pid_to_proc@.dom() == orig.dom(),
            forall|q: i32|
                #[trigger] pid_to_proc@.contains_key(q) ==> pid_to_proc@[q].command == orig[q].command,
            forall|k: int| i <= k < keys@.len() ==> pid_to_proc@[keys@[k]] == orig[keys@[k]],
            forall|k: int|
                0 <= k < i ==> same_but_electron(pid_to_proc@[keys@[k]], orig[keys@[k]])
                    && pid_to_proc@[keys@[k]].is_electron == electron_after(
                    orig,
                    root_exes@,
                    check_real,
                    keys@[k],
                ) && opt_view(pid_to_proc@[keys@[k]].electron_app_name) == app_name_after(
                    orig,
                    keys@[k],
                ),
        decreases keys@.len() - i,
    {
        let p = keys[i];
        proof {
            assert(keys@.to_set().contains(p));
        }
        let old_rec = match pid_to_proc.get(&p) {
            Some(rec) => rec.duplicate(),
            None => {
                proof {
                    assert(false);
                }
                return ;
            },
        };
        assert(old_rec == orig[p]);
        // the root that decides, whether p is marked, whether p is a root
        let is_sub = subs.contains(&p);
        let mut tr = p;
        let mut marked = false;
        let mut is_root = false;
        let mut k: usize = 0;
        while k < sub_list.len()
            invariant
                k <= sub_list@.len(),
                sub_roots@.len() == sub_list@.len(),
                sub_marks@.len() == sub_list@.len(),
                subs@ == subs_of(orig),
                sub_list@.to_set() == subs@,
                is_sub == subs@.contains(p),
                forall|x: int|
                    0 <= x < sub_list@.len() ==> Some(#[trigger] sub_roots@[x]) == electron_root_spec(
                        orig,
                        subs@,
                        sub_list@[x],
                    ),
                forall|x: int|
                    0 <= x < sub_list@.len() ==> forall|q: i32|
                        (#[trigger] sub_marks@[x]@).contains(q) <==> mark_walk(
                            orig,
                            subs@,
                            sub_list@[x],
                            orig.len() + 1,
                        ).contains(q),
                marked == exists|x: int|
                    0 <= x < k && mark_walk(orig, subs@, sub_list@[x], orig.len() + 1).contains(p),
                is_root == exists|x: int| 0 <= x < k && sub_roots@[x] == p,
                (exists|x: int| 0 <= x < k && sub_list@[x] == p) ==> tr == tree_root_of(orig, p),
                !(exists|x: int| 0 <= x < k && sub_list@[x] == p) ==> tr == p,
            decreases sub_list@.len() - k,
        {
            if crate::data::processes::tree::holds_pid_in(&sub_marks[k], p) {
                marked = true;
            }
            if sub_roots[k] == p {
                is_root = true;
            }
            if sub_list[k] == p {
                tr = sub_roots[k];
            }
            proof {
                assert(sub_marks@[k as int]@.contains(p) == mark_walk(
                    orig,
                    subs@,
                    sub_list@[k as int],
                    orig.len() + 1,
                ).contains(p));
                if sub_list@[k as int] == p {
                    assert(sub_list@.to_set().contains(p));
                }
            }
            k = k + 1;
        }
        proof {
            assert(marked == marked_spec(orig).contains(p)) by {
                if marked_spec(orig).contains(p) {
                    let s = choose|s: i32|
                        subs_of(orig).contains(s) && #[trigger] mark_walk(
                            orig,
                            subs_of(orig),
                            s,
                            orig.len() + 1,
                        ).contains(p);
                    assert(sub_list@.to_set().contains(s));
                    let x = choose|x: int| 0 <= x < sub_list@.len() && sub_list@[x] == s;
                    assert(mark_walk(orig, subs@, sub_list@[x], orig.len() + 1).contains(p));
                }
                if marked {
                    let x = choose|x: int|
                        0 <= x < sub_list@.len() && mark_walk(
                            orig,
                            subs@,
                            sub_list@[x],
                            orig.len() + 1,
                        ).contains(p);
                    assert(sub_list@.to_set().contains(sub_list@[x]));
                }
            }
            assert(is_root == roots_spec(orig).contains(p)) by {
                if roots_spec(orig).contains(p) {
                    let s = choose|s: i32|
                        subs_of(orig).contains(s) && #[trigger] electron_root_spec(
                            orig,
                            subs_of(orig),
                            s,
                        ) == Some(p);
                    assert(sub_list@.to_set().contains(s));
                    let x = choose|x: int| 0 <= x < sub_list@.len() && sub_list@[x] == s;
                    assert(sub_roots@[x] == p);
                }
                if is_root {
                    let x = choose|x: int| 0 <= x < sub_list@.len() && sub_roots@[x] == p;
                    assert(sub_list@.to_set().contains(sub_list@[x]));
                }
            }
            if is_sub {
                assert(sub_list@.to_set().contains(p));
                let x = choose|x: int| 0 <= x < sub_list@.len() && sub_list@[x] == p;
            }
            assert(tr == tree_root_of(orig, p));
        }
        let runs_electron = if !check_real {
            true
        } else {
            let exe_says = match root_exes.get(&tr) {
                Some(e) => contains_chars(&chars_of(e.as_str()), &chars_of("electron")),
                None => false,
            };
            assert(exe_says == contains_seq(exe_text(root_exes@, tr), "electron"@)) by {
                if !root_exes@.contains_key(tr) {
                    reveal_strlit("electron");
                }
            }
            let mut asar = false;
            let mut x: usize = 0;
            while x < sub_list.len()
                invariant
                    x <= sub_list@.len(),
                    sub_roots@.len() == sub_list@.len(),
                    pid_to_proc@.dom() == orig.dom(),
                    forall|q: i32|
                        #[trigger] pid_to_proc@.contains_key(q) ==> pid_to_proc@[q].command
                            == orig[q].command,
                    sub_list@.to_set() == subs@,
                    subs@ == subs_of(orig),
                    forall|y: int|
                        0 <= y < sub_list@.len() ==> Some(#[trigger] sub_roots@[y])
                            == electron_root_spec(orig, subs@, sub_list@[y]),
                    forall|y: int| 0 <= y < x && sub_roots@[y] == tr ==> !asar ==> !contains_seq(
                        orig[sub_list@[y]].command@,
                        ".asar"@,
                    ),
                    asar ==> exists|y: int|
                        0 <= y < sub_list@.len() && sub_roots@[y] == tr && contains_seq(
                            orig[sub_list@[y]].command@,
                            ".asar"@,
                        ),
                decreases sub_list@.len() - x,
            {
                if sub_roots[x] == tr {
                    let s = sub_list[x];
                    proof {
                        assert(sub_list@.to_set().contains(s));
                        assert(orig.contains_key(s));
                        assert(pid_to_proc@.contains_key(s));
                    }
                    let cmd_has = match pid_to_proc.get(&s) {
                        Some(rec) => contains_chars(&chars_of(rec.command.as_str()), &chars_of(".asar")),
                        None => false,
                    };
                    if cmd_has {
                        asar = true;
                    }
                }
                x = x + 1;
            }
            exe_says || asar
        };
        proof {
            if check_real {
                assert(runs_electron == real_root(orig, root_exes@, tree_root_of(orig, p))) by {
                    if exists|s: i32|
                        #![trigger subs_of(orig).contains(s)]
                        subs_of(orig).contains(s) && electron_root_spec(orig, subs_of(orig), s)
                            == Some(tr) && contains_seq(orig[s].command@, ".asar"@) {
                        let s = choose|s: i32|
                            #![trigger subs_of(orig).contains(s)]
                            subs_of(orig).contains(s) && electron_root_spec(orig, subs_of(orig), s)
                                == Some(tr) && contains_seq(orig[s].command@, ".asar"@);
                        assert(sub_list@.to_set().contains(s));
                        let y = choose|y: int| 0 <= y < sub_list@.len() && sub_list@[y] == s;
                        assert(sub_roots@[y] == tr);
                    }
                }
            }
        }
        let ghost old_pid_to_proc = pid_to_proc@;
        let mut rec = old_rec;
        rec.is_electron = old_rec_electron(&rec) || (marked && runs_electron);
        if is_root && rec.electron_app_name.is_none() {
            proof {
                assert(roots_spec(orig).contains(p) && orig.contains_key(p));
            }
            let name = extract_electron_app_name(rec.command.as_str(), rec.name.as_str());
            rec.electron_app_name = Some(name);
        }
        pid_to_proc.insert(p, rec);
        proof {
            assert forall|q: i32| #[trigger] pid_to_proc@.contains_key(q) implies pid_to_proc@[q].command
                == orig[q].command by {
                if q != p {
                    assert(old_pid_to_proc.contains_key(q));
                }
            }
            assert forall|k: int| i + 1 <= k < keys@.len() implies pid_to_proc@[keys@[k]]
                == orig[keys@[k]] by {
                assert(keys@[k] != p);
            }
            assert forall|k: int| 0 <= k < i + 1 implies same_but_electron(
                pid_to_proc@[keys@[k]],
                orig[keys@[k]],
            ) && pid_to_proc@[keys@[k]].is_electron == electron_after(
                orig,
                root_exes@,
                check_real,
                keys@[k],
            ) && opt_view(pid_to_proc@[keys@[k]].electron_app_name) == app_name_after(
                orig,
                keys@[k],
            ) by {
                if k < i {
                    assert(keys@[k] != p);
                }
            }
        }
        i = i + 1;
    }
    proof {
        assert forall|p: i32| #[trigger] orig.contains_key(p) implies same_but_electron(
            pid_to_proc@[p],
            orig[p],
        ) && pid_to_proc@[p].is_electron == electron_after(orig, root_exes@, check_real, p)
            && opt_view(pid_to_proc@[p].electron_app_name) == app_name_after(orig, p) by {
            assert(keys@.to_set().contains(p));
            let k = choose|k: int| 0 <= k < keys@.len() && keys@[k] == p;
        }
    }
}

/// The electron flag of a record.
fn old_rec_electron(rec: &ProcessInfo) -> (r: bool)
    ensures
        r == rec.is_electron,
{
    rec.is_electron
}

/// Marks the processes of electron trees as electron and names the apps
/// of their roots. A process counts only where its tree's root runs
/// electron: `root_exes` holds the executables of the roots
/// (`electron_roots`), and a root counts where its executable names
/// electron or one of its subprocesses runs an `.asar` archive.
pub fn detect_electron_processes(
    pid_to_proc: &mut HashMap<i32, ProcessInfo>,
    root_exes: &HashMap<i32, String>,
)
    requires
        walks_end(old(pid_to_proc)@),
        root_names_defined(old(pid_to_proc)@),
    ensures
        final(pid_to_proc)@.dom() == old(pid_to_proc)@.dom(),
        forall|p: i32|
            #[trigger] old(pid_to_proc)@.contains_key(p) ==> same_but_electron(
                final(pid_to_proc)@[p],
                old(pid_to_proc)@[p],
            ) && final(pid_to_proc)@[p].is_electron == electron_after(
                old(pid_to_proc)@,
                root_exes@,
                true,
                p,
            ) && opt_view(final(pid_to_proc)@[p].electron_app_name) == app_name_after(
                old(pid_to_proc)@,
                p,
            ),
{
    apply_electron(pid_to_proc, root_exes, true)
}

/// Marks every process of an electron tree as electron and names the apps
/// of their roots.
pub fn mark_electron_trees(pid_to_proc: &mut HashMap<i32, ProcessInfo>)
    requires
        walks_end(old(pid_to_proc)@),
        root_names_defined(old(pid_to_proc)@),
    ensures
        final(pid_to_proc)@.dom() == old(pid_to_proc)@.dom(),
        forall|p: i32|
            #[trigger] old(pid_to_proc)@.contains_key(p) ==> same_but_electron(
                final(pid_to_proc)@[p],
                old(pid_to_proc)@[p],
            ) && final(pid_to_proc)@[p].is_electron == (old(pid_to_proc)@[p].is_electron
                || marked_spec(old(pid_to_proc)@).contains(p)) && opt_view(
                final(pid_to_proc)@[p].electron_app_name,
            ) == app_name_after(old(pid_to_proc)@, p),
{
    let none: HashMap<i32, String> = HashMap::new();
    apply_electron(pid_to_proc, &none, false)
}

/// Whether every walk from an electron subprocess to its root ends
/// (`walks_end`).
pub fn electron_walks_end(pids: &HashMap<i32, ProcessInfo>) -> (r: bool)
    ensures
        r == walks_end(pids@),
{
    let subs = electron_subprocesses(pids);
    let elems = set_elements(&subs);
    let mut i: usize = 0;
    while i < elems.len()
        invariant
            i <= elems@.len(),
            elems@.to_set() == subs_of(pids@),
            subs@ == subs_of(pids@),
            forall|k: int|
                0 <= k < i ==> electron_root_spec(pids@, subs_of(pids@), #[trigger] elems@[k]) is Some,
        decreases elems@.len() - i,
    {
        if electron_root_checked(elems[i], &subs, pids).is_none() {
            assert(elems@.to_set().contains(elems@[i as int]));
            return false;
        }
        i = i + 1;
    }
    assert forall|s: i32| #[trigger] subs_of(pids@).contains(s) implies electron_root_spec(
        pids@,
        subs_of(pids@),
        s,
    ) is Some by {
        assert(elems@.to_set().contains(s));
        let k = choose|k: int| 0 <= k < elems@.len() && elems@[k] == s;
    }
    true
}

/// Whether the app name of a process is defined (`app_name_defined`): a
/// process named like electron needs a command line of at least one word.
pub fn app_name_ready(cmdline: &str, name: &str) -> (r: bool)
    ensures
        r == app_name_defined(cmdline@, name@),
{
    let lower = to_lowercase(name);
    if !contains_chars(&chars_of(lower.as_str()), &chars_of("electron")) {
        return true;
    }
    let parts = words_of(&chars_of(cmdline));
    assert(views(parts@).len() == parts@.len());
    parts.len() >= 1
}

/// The app name of a process where it is defined, else `None`.
pub fn electron_app_name_checked(cmdline: &str, name: &str) -> (r: Option<String>)
    ensures
        match r {
            Some(s) => app_name_defined(cmdline@, name@) && s@ == app_name_spec(cmdline@, name@),
            None => !app_name_defined(cmdline@, name@),
        },
{
    if app_name_ready(cmdline, name) {
        Some(extract_electron_app_name(cmdline, name))
    } else {
        None
    }
}

/// Whether every electron root without an app name has one defined
/// (`root_names_defined`).
pub fn root_names_ready(pids: &HashMap<i32, ProcessInfo>) -> (r: bool)
    requires
        walks_end(pids@),
    ensures
        r == root_names_defined(pids@),
{
    let roots = electron_roots(pids);
    let elems = set_elements(&roots);
    let mut i: usize = 0;
    while i < elems.len()
        invariant
            i <= elems@.len(),
            elems@.to_set() == roots_spec(pids@),
            forall|k: int|
                0 <= k < i ==> {
                    let q = #[trigger] elems@[k];
                    pids@.contains_key(q) && pids@[q].electron_app_name is None ==> app_name_defined(
                        pids@[q].command@,
                        pids@[q].name@,
                    )
                },
        decreases elems@.len() - i,
    {
        let q = elems[i];
        match pids.get(&q) {
            Some(p) => {
                if p.electron_app_name.is_none() && !app_name_ready(
                    p.command.as_str(),
                    p.name.as_str(),
                ) {
                    assert(elems@.to_set().contains(q));
                    return false;
                }
            },
            None => {},
        }
        i = i + 1;
    }
    assert forall|q: i32|
        #[trigger] roots_spec(pids@).contains(q) && pids@.contains_key(q)
            && pids@[q].electron_app_name is None implies app_name_defined(
        pids@[q].command@,
        pids@[q].name@,
    ) by {
        assert(elems@.to_set().contains(q));
        let k = choose|k: int| 0 <= k < elems@.len() && elems@[k] == q;
    }
    true
}

/// Runs `detect_electron_processes` where every root's app name is
/// defined, and tells whether it ran; otherwise nothing changes.
pub fn detect_electron_processes_checked(
    pid_to_proc: &mut HashMap<i32, ProcessInfo>,
    root_exes: &HashMap<i32, String>,
) -> (ran: bool)
    requires
        walks_end(old(pid_to_proc)@),
    ensures
        ran == root_names_defined(old(pid_to_proc)@),
        !ran ==> final(pid_to_proc)@ == old(pid_to_proc)@,
        ran ==> final(pid_to_proc)@.dom() == old(pid_to_proc)@.dom(),
        ran ==> forall|p: i32|
            #[trigger] old(pid_to_proc)@.contains_key(p) ==> same_but_electron(
                final(pid_to_proc)@[p],
                old(pid_to_proc)@[p],
            ) && final(pid_to_proc)@[p].is_electron == electron_after(
                old(pid_to_proc)@,
                root_exes@,
                true,
                p,
            ) && opt_view(final(pid_to_proc)@[p].electron_app_name) == app_name_after(
                old(pid_to_proc)@,
                p,
            ),
{
    if root_names_ready(pid_to_proc) {
        detect_electron_processes(pid_to_proc, root_exes);
        true
    } else {
        false
    }
}

/// Runs `mark_electron_trees` where every root's app name is defined, and
/// tells whether it ran; otherwise nothing changes.
pub fn mark_electron_trees_checked(pid_to_proc: &mut HashMap<i32, ProcessInfo>) -> (ran: bool)
    requires
        walks_end(old(pid_to_proc)@),
    ensures
        ran == root_names_defined(old(pid_to_proc)@),
        !ran ==> final(pid_to_proc)@ == old(pid_to_proc)@,
        ran ==> final(pid_to_proc)@.dom() == old(pid_to_proc)@.dom(),
        ran ==> forall|p: i32|
            #[trigger] old(pid_to_proc)@.contains_key(p) ==> same_but_electron(
                final(pid_to_proc)@[p],
                old(pid_to_proc)@[p],
            ) && final(pid_to_proc)@[p].is_electron == (old(pid_to_proc)@[p].is_electron
                || marked_spec(old(pid_to_proc)@).contains(p)) && opt_view(
                final(pid_to_proc)@[p].electron_app_name,
            ) == app_name_after(old(pid_to_proc)@, p),
{
    if root_names_ready(pid_to_proc) {
        mark_electron_trees(pid_to_proc);
        true
    } else {
        false
    }
}

// ---------------------------------------------------------------------
// Inherited icons
// ---------------------------------------------------------------------
/// The icon a process shows once icons pass down the tree: `None` where the
/// walk up from `p` finds no root within `fuel` processes (a parent cycle);
/// otherwise the icon of the nearest process at or above `p` that has one,
/// if any. A root is a process whose ppid is 0 or names no known process.
pub open spec fn icon_up(pids: Map<i32, ProcessInfo>, p: i32, fuel: nat) -> Option<Option<String>>
    decreases fuel,
{
    if fuel == 0 || !pids.contains_key(p) {
        None
    } else {
        let own = pids[p].icon_name;
        let ppid = pids[p].ppid;
        if ppid == 0 || !pids.contains_key(ppid) {
            Some(own)
        } else {
            match icon_up(pids, ppid, (fuel - 1) as nat) {
                None => None,
                Some(inherited) => Some(
                    if own is Some {
                        own
                    } else {
                        inherited
                    },
                ),
            }
        }
    }
}

/// The icon of process `p` after icons pass down the tree: its own, or
/// else the one it inherits.
pub open spec fn icon_after(pids: Map<i32, ProcessInfo>, p: i32) -> Option<String> {
    if pids[p].icon_name is Some {
        pids[p].icon_name
    } else {
        match icon_up(pids, p, pids.len()) {
            Some(e) => e,
            None => None,
        }
    }
}

/// Keeps the nearest icon found so far.
pub open spec fn keep_nearest(best: Option<String>, found: Option<Option<String>>) -> Option<
    Option<String>,
> {
    match found {
        None => None,
        Some(e) => Some(
            if best is Some {
                best
            } else {
                e
            },
        ),
    }
}

/// The records agree but for the icon.
pub open spec fn same_but_icon(a: ProcessInfo, b: ProcessInfo) -> bool {
    &&& a.pid == b.pid
    &&& a.ppid == b.ppid
    &&& a.name == b.name
    &&& a.user == b.user
    &&& a.state == b.state
    &&& a.command == b.command
    &&& a.cgroup == b.cgroup
    &&& a.mem_rss == b.mem_rss
    &&& a.vram_bytes == b.vram_bytes
    &&& a.is_gui == b.is_gui
    &&& a.is_kthread == b.is_kthread
    &&& a.is_owned_by_current_user == b.is_owned_by_current_user
    &&& a.is_electron == b.is_electron
    &&& a.electron_app_name == b.electron_app_name
    &&& a.has_children == b.has_children
    &&& a.keys == b.keys
}

/// The icon process `p` reaches by walking up the tree.
fn inherited_icon(pids: &HashMap<i32, ProcessInfo>, p: i32) -> (r: Option<Option<String>>)
    ensures
        r == icon_up(pids@, p, pids@.len()),
{
    let ghost total = pids@.len();
    let mut best: Option<String> = None;
    let mut cur = p;
    let mut fuel: usize = pids.len();
    while fuel > 0
        invariant
            total == pids@.len(),
            icon_up(pids@, p, total) == keep_nearest(best, icon_up(pids@, cur, fuel as nat)),
        decreases fuel,
    {
        let ghost f = fuel as nat;
        let ghost best_old = best;
        let rec = match pids.get(&cur) {
            Some(rec) => rec,
            None => {
                assert(icon_up(pids@, cur, f) is None);
                return None;
            },
        };
        let ghost own = rec.icon_name;
        if best.is_none() {
            best = copy_icon(&rec.icon_name);
        }
        let ppid = rec.ppid;
        let parent_known = ppid != 0 && pids.contains_key(&ppid);
        if !parent_known {
            assert(icon_up(pids@, cur, f) == Some(own));
            return Some(best);
        }
        proof {
            let up = icon_up(pids@, ppid, (f - 1) as nat);
            assert(icon_up(pids@, cur, f) == match up {
                None => None,
                Some(inherited) => Some(
                    if own is Some {
                        own
                    } else {
                        inherited
                    },
                ),
            });
            assert(keep_nearest(best_old, icon_up(pids@, cur, f)) == keep_nearest(best, up));
        }
        cur = ppid;
        fuel = fuel - 1;
    }
    None
}

/// A copy of an optional icon name.
fn copy_icon(o: &Option<String>) -> (r: Option<String>)
    ensures
        r == *o,
{
    match o {
        Some(s) => Some(s.clone()),
        None => None,
    }
}

/// Passes icons down the process tree: a process without its own icon
/// takes the nearest ancestor's (walking up to a root, a process whose
/// ppid is 0 or unknown); a process that has one keeps it, and its
/// subtree inherits it.
pub fn propagate_icons(pid_to_proc: &mut HashMap<i32, ProcessInfo>)
    ensures
        final(pid_to_proc)@.dom() == old(pid_to_proc)@.dom(),
        forall|p: i32|
            #[trigger] old(pid_to_proc)@.contains_key(p) ==> same_but_icon(
                final(pid_to_proc)@[p],
                old(pid_to_proc)@[p],
            ) && final(pid_to_proc)@[p].icon_name == icon_after(old(pid_to_proc)@, p),
{
    let ghost orig = pid_to_proc@;
    let keys = map_keys(pid_to_proc);
    let mut icons: Vec<Option<String>> = Vec::new();
    let mut j: usize = 0;
    while j < keys.len()
        invariant
            pid_to_proc@ == orig,
            keys@.to_set() == orig.dom(),
            j <= keys@.len(),
            icons@.len() == j,
            forall|k: int| 0 <= k < j ==> icons@[k] == icon_after(orig, keys@[k]),
        decreases keys@.len() - j,
    {
        let p = keys[j];
        proof {
            assert(keys@.to_set().contains(p));
        }
        let own = match pid_to_proc.get(&p) {
            Some(rec) => copy_icon(&rec.icon_name),
            None => None,
        };
        let icon = if own.is_some() {
            own
        } else {
            match inherited_icon(pid_to_proc, p) {
                Some(e) => e,
                None => None,
            }
        };
        icons.push(icon);
        j = j + 1;
    }
    let mut i: usize = 0;
    while i < keys.len()
        invariant
            keys@.to_set() == orig.dom(),
            keys@.no_duplicates(),
            icons@.len() == keys@.len(),
            forall|k: int| 0 <= k < keys@.len() ==> icons@[k] == icon_after(orig, keys@[k]),
            i <= keys@.len(),
            pid_to_proc@.dom() == orig.dom(),
            forall|k: int| i <= k < keys@.len() ==> pid_to_proc@[keys@[k]] == orig[keys@[k]],
            forall|k: int|
                0 <= k < i ==> same_but_icon(pid_to_proc@[keys@[k]], orig[keys@[k]])
                    && pid_to_proc@[keys@[k]].icon_name == icon_after(orig, keys@[k]),
        decreases keys@.len() - i,
    {
        let p = keys[i];
        proof {
            assert(keys@.to_set().contains(p));
        }
        let mut rec = match pid_to_proc.get(&p) {
            Some(rec) => rec.duplicate(),
            None => {
                proof {
                    assert(false);
                }
                return ;
            },
        };
        rec.icon_name = copy_icon(&icons[i]);
        pid_to_proc.insert(p, rec);
        proof {
            assert forall|k: int| i + 1 <= k < keys@.len() implies pid_to_proc@[keys@[k]]
                == orig[keys@[k]] by {
                assert(keys@[k] != p);
            }
            assert forall|k: int| 0 <= k < i + 1 implies same_but_icon(
                pid_to_proc@[keys@[k]],
                orig[keys@[k]],
            ) && pid_to_proc@[keys@[k]].icon_name == icon_after(orig, keys@[k]) by {
                if k < i {
                    assert(keys@[k] != p);
                }
            }
        }
        i = i + 1;
    }
    proof {
        assert forall|p: i32| #[trigger] orig.contains_key(p) implies same_but_icon(
            pid_to_proc@[p],
            orig[p],
        ) && pid_to_proc@[p].icon_name == icon_after(orig, p) by {
            assert(keys@.to_set().contains(p));
            let k = choose|k: int| 0 <= k < keys@.len() && keys@[k] == p;
        }
    }
}

} // verus!
