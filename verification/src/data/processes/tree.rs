//! Which tree rows a search keeps visible and which it expands.

use crate::data::model::ProcessInfo;
use std::collections::{HashMap, HashSet};
use vstd::prelude::*;

verus! {

broadcast use vstd::std_specs::hash::group_hash_axioms;

/// The ppid a pid-to-ppid map gives `pid`, 0 where it has none.
pub open spec fn ppid_of(map: Map<i32, i32>, pid: i32) -> i32 {
    if map.contains_key(pid) {
        map[pid]
    } else {
        0
    }
}

/// The pid `k` links above `m`.
pub open spec fn link(map: Map<i32, i32>, m: i32, k: nat) -> i32
    decreases k,
{
    if k == 0 {
        m
    } else {
        ppid_of(map, link(map, m, (k - 1) as nat))
    }
}

/// The walk up from `m` reaches link `k` (`k >= 1`): no link up to it is
/// 0 or `m` itself, and no link repeats the one before it.
pub open spec fn walk_reaches(map: Map<i32, i32>, m: i32, k: nat) -> bool {
    &&& k >= 1
    &&& forall|s: nat| 1 <= s <= k ==> #[trigger] link(map, m, s) != 0 && link(map, m, s) != m
    &&& forall|s: nat| 1 <= s < k ==> #[trigger] link(map, m, s + 1) != link(map, m, s)
}

/// The pids the walk up from `m` passes.
pub open spec fn ancestors_of(map: Map<i32, i32>, m: i32) -> Set<i32> {
    Set::new(|a: i32| exists|k: nat| walk_reaches(map, m, k) && link(map, m, k) == a)
}

/// The matched pids with all the pids the walks up from them pass.
pub open spec fn with_ancestors_spec(matched: Set<i32>, map: Map<i32, i32>) -> Set<i32> {
    Set::new(|a: i32| matched.contains(a) || exists|m: i32| matched.contains(m) && ancestors_of(map, m).contains(a))
}

proof fn lemma_link_shift(map: Map<i32, i32>, m: i32, a: nat, b: nat, d: nat)
    requires
        link(map, m, a) == link(map, m, b),
    ensures
        link(map, m, a + d) == link(map, m, b + d),
    decreases d,
{
    if d > 0 {
        lemma_link_shift(map, m, a, b, (d - 1) as nat);
        assert((a + d - 1) as nat == a + (d - 1) as nat);
        assert((b + d - 1) as nat == b + (d - 1) as nat);
    }
}

/// Once the walk returns to an earlier link, every later link repeats one
/// of the first `t`.
proof fn lemma_link_cycle(map: Map<i32, i32>, m: i32, t: nat, s0: nat, k: nat)
    requires
        1 <= s0 <= t,
        link(map, m, t + 1) == link(map, m, s0),
        k >= 1,
    ensures
        exists|s: nat| 1 <= s <= t && link(map, m, k) == link(map, m, s),
    decreases k,
{
    if k <= t {
        assert(link(map, m, k) == link(map, m, k));
    } else {
        let d: nat = (k - (t + 1)) as nat;
        lemma_link_shift(map, m, t + 1, s0, d);
        assert(t + 1 + d == k);
        lemma_link_cycle(map, m, t, s0, s0 + d);
    }
}

/// `x` is one of the entries of `v`.
pub fn holds_pid_in(v: &Vec<i32>, x: i32) -> (r: bool)
    ensures
        r == v@.contains(x),
{
    holds_pid(v, x)
}

/// `x` is one of the entries of `v`.
fn holds_pid(v: &Vec<i32>, x: i32) -> (r: bool)
    ensures
        r == v@.contains(x),
{
    let mut i: usize = 0;
    while i < v.len()
        invariant
            i <= v@.len(),
            forall|k: int| 0 <= k < i ==> v@[k] != x,
        decreases v@.len() - i,
    {
        if v[i] == x {
            return true;
        }
        i = i + 1;
    }
    false
}

/// The pids the walk up from `m` passes, each once, in walk order.
pub fn walk_up(m: i32, pid_to_ppid: &HashMap<i32, i32>) -> (r: Vec<i32>)
    ensures
        forall|a: i32| r@.contains(a) <==> ancestors_of(pid_to_ppid@, m).contains(a),
{
    let ghost map = pid_to_ppid@;
    let mut walk: Vec<i32> = Vec::new();
    let mut current = match pid_to_ppid.get(&m) {
        Some(p) => *p,
        None => 0,
    };
    assert(link(map, m, 0) == m);
    assert(current == link(map, m, 1));
    if current == 0 || current == m {
        proof {
            assert forall|a: i32| !ancestors_of(map, m).contains(a) by {
                if ancestors_of(map, m).contains(a) {
                    let k = choose|k: nat| walk_reaches(map, m, k) && link(map, m, k) == a;
                    assert(link(map, m, 1) != 0 && link(map, m, 1) != m);
                }
            }
        }
        return walk;
    }
    walk.push(current);
    proof {
        assert(walk_reaches(map, m, 1));
        vstd::set_lib::lemma_len_subset(walk@.drop_last().to_set(), map.dom());
    }
    loop
        invariant
            map == pid_to_ppid@,
            walk@.len() >= 1,
            current == walk@.last(),
            walk@.no_duplicates(),
            forall|k: int| 0 <= k < walk@.len() ==> walk@[k] == link(map, m, (k + 1) as nat),
            walk_reaches(map, m, walk@.len() as nat),
            forall|k: int| 0 <= k < walk@.len() - 1 ==> map.dom().contains(#[trigger] walk@[k]),
            walk@.len() <= map.dom().len() + 1,
        ensures
            walk@.len() >= 1,
            current == walk@.last(),
            forall|k: int| 0 <= k < walk@.len() ==> walk@[k] == link(map, m, (k + 1) as nat),
            walk_reaches(map, m, walk@.len() as nat),
            ({
                let nx = ppid_of(map, current);
                nx == 0 || nx == current || nx == m || walk@.contains(nx)
            }),
        decreases map.dom().len() + 1 - walk@.len(),
    {
        let next = match pid_to_ppid.get(&current) {
            Some(p) => *p,
            None => 0,
        };
        if next == 0 || next == current || next == m {
            break ;
        }
        if holds_pid(&walk, next) {
            break ;
        }
        let ghost t = walk@.len();
        let ghost old_walk = walk@;
        let ghost cur_old = current;
        proof {
            assert(link(map, m, t) == current);
            assert(link(map, m, (t + 1) as nat) == next);
            assert(map.dom().contains(current));
        }
        walk.push(next);
        current = next;
        proof {
            assert(walk@ == old_walk.push(next));
            assert(walk@.drop_last() == old_walk);
            assert forall|a: int, b: int|
                0 <= a < walk@.len() && 0 <= b < walk@.len() && a != b implies walk@[a] != walk@[b] by {
                if a < t && b < t {
                    assert(old_walk.no_duplicates());
                } else if a == t {
                    assert(walk@[b] == old_walk[b]);
                    if walk@[a] == walk@[b] {
                        assert(old_walk.contains(next));
                    }
                } else {
                    assert(walk@[a] == old_walk[a]);
                    if walk@[a] == walk@[b] {
                        assert(old_walk.contains(next));
                    }
                }
            }
            assert forall|s: nat| 1 <= s <= t + 1 implies #[trigger] link(map, m, s) != 0 && link(
                map,
                m,
                s,
            ) != m by {
                if s <= t {
                } else {
                    assert(s == t + 1);
                }
            }
            assert forall|s: nat| 1 <= s < t + 1 implies #[trigger] link(map, m, s + 1) != link(
                map,
                m,
                s,
            ) by {
                if s == t {
                    assert(link(map, m, (t + 1) as nat) == next);
                }
            }
            assert forall|k: int| 0 <= k < walk@.len() - 1 implies map.dom().contains(
                #[trigger] walk@[k],
            ) by {
                assert(walk@[k] == old_walk[k]);
                if k == t - 1 {
                    assert(old_walk[k] == cur_old);
                }
            }
            let pre = walk@.drop_last();
            assert(pre.to_set().subset_of(map.dom())) by {
                assert forall|a: i32| pre.to_set().contains(a) implies map.dom().contains(a) by {
                    let k = choose|k: int| 0 <= k < pre.len() && pre[k] == a;
                    assert(walk@[k] == a);
                }
            }
            assert(pre.no_duplicates());
            pre.unique_seq_to_set();
            vstd::set_lib::lemma_len_subset(pre.to_set(), map.dom());
        }
    }
    proof {
        let t: nat = walk@.len() as nat;
        assert(link(map, m, t) == current);
        assert(link(map, m, t + 1) == ppid_of(map, current));
        assert forall|a: i32| ancestors_of(map, m).contains(a) implies walk@.contains(a) by {
            let k = choose|k: nat| walk_reaches(map, m, k) && link(map, m, k) == a;
            if k <= t {
                assert(walk@[k - 1] == a);
            } else {
                let nx = ppid_of(map, current);
                assert(link(map, m, t + 1) == nx);
                if nx == 0 || nx == m {
                    assert(1 <= t + 1 <= k);
                    assert(link(map, m, t + 1) != 0 && link(map, m, t + 1) != m);
                } else if nx == current {
                    assert(1 <= t < k);
                    assert(link(map, m, t + 1) != link(map, m, t));
                } else {
                    let j = choose|j: int| 0 <= j < walk@.len() && walk@[j] == nx;
                    lemma_link_cycle(map, m, t, (j + 1) as nat, k);
                    let s = choose|s: nat| 1 <= s <= t && link(map, m, k) == link(map, m, s);
                    assert(walk@[s - 1] == a);
                }
            }
        }
        assert forall|a: i32| walk@.contains(a) implies ancestors_of(map, m).contains(a) by {
            let k = choose|k: int| 0 <= k < walk@.len() && walk@[k] == a;
            let kk: nat = (k + 1) as nat;
            assert forall|s: nat| 1 <= s <= kk implies #[trigger] link(map, m, s) != 0 && link(
                map,
                m,
                s,
            ) != m by {
            }
            assert(walk_reaches(map, m, kk));
        }
    }
    walk
}

/// The pids of `ms` with the pids their walks up pass.
pub open spec fn covered(map: Map<i32, i32>, ms: Seq<i32>) -> Set<i32> {
    Set::new(
        |a: i32|
            exists|k: int|
                0 <= k < ms.len() && (ms[k] == a || ancestors_of(map, ms[k]).contains(a)),
    )
}

/// The matched pids together with the pids of all their ancestors: for each
/// matched pid the walk up the pid-to-ppid map collects each ppid until it
/// meets 0, the matched pid itself, or a process that is its own parent.
pub fn with_ancestors(matched: &HashSet<i32>, pid_to_ppid: &HashMap<i32, i32>) -> (r: HashSet<i32>)
    ensures
        r@ == with_ancestors_spec(matched@, pid_to_ppid@),
{
    let ghost map = pid_to_ppid@;
    let mut display: HashSet<i32> = HashSet::new();
    assert(display@ =~= covered(map, Seq::<i32>::empty()));
    let ghost all = vstd::std_specs::iter::IteratorSpec::remaining(
        &vstd::std_specs::hash::spec_hash_keys_iter(matched),
    ).unref();
    let ghost mut seen: Seq<i32> = seq![];
    for m in it: matched.iter()
        invariant
            map == pid_to_ppid@,
            it.seq() == vstd::std_specs::iter::IteratorSpec::remaining(
                &vstd::std_specs::hash::spec_hash_keys_iter(matched),
            ),
            it.seq().unref() == all,
            all.to_set() == matched@,
            seen == all.take(it.index() as int),
            display@ == covered(map, seen),
    {
        let mp = *m;
        let ghost done = seen;
        let ghost next_done = all.take(it.index() + 1);
        proof {
            assert(next_done == done.push(mp));
        }
        display.insert(mp);
        let walk = walk_up(mp, pid_to_ppid);
        let mut i: usize = 0;
        while i < walk.len()
            invariant
                i <= walk@.len(),
                forall|a: i32| walk@.contains(a) <==> ancestors_of(map, mp).contains(a),
                display@ == covered(map, done).insert(mp).union(walk@.take(i as int).to_set()),
            decreases walk@.len() - i,
        {
            display.insert(walk[i]);
            proof {
                assert(walk@.take(i + 1) == walk@.take(i as int).push(walk@[i as int]));
                walk@.take(i as int).lemma_push_to_set_commute(walk@[i as int]);
            }
            i = i + 1;
        }
        proof {
            assert(walk@.take(walk@.len() as int) == walk@);
            assert forall|a: i32| display@.contains(a) <==> covered(map, next_done).contains(a) by {
                if covered(map, next_done).contains(a) {
                    let k = choose|k: int|
                        0 <= k < next_done.len() && (next_done[k] == a || ancestors_of(
                            map,
                            next_done[k],
                        ).contains(a));
                    if k < done.len() {
                        assert(done[k] == next_done[k]);
                        assert(covered(map, done).contains(a));
                    } else {
                        assert(next_done[k] == mp);
                        if a != mp {
                            assert(walk@.contains(a));
                            assert(walk@.to_set().contains(a));
                        }
                    }
                }
                if display@.contains(a) {
                    if covered(map, done).contains(a) {
                        let k = choose|k: int|
                            0 <= k < done.len() && (done[k] == a || ancestors_of(map, done[k]).contains(
                                a,
                            ));
                        assert(next_done[k] == done[k]);
                    } else if a == mp {
                        assert(next_done[done.len() as int] == mp);
                    } else {
                        assert(walk@.to_set().contains(a));
                        assert(walk@.contains(a));
                        assert(next_done[done.len() as int] == mp);
                    }
                }
            }
            assert(display@ =~= covered(map, next_done));
            seen = seen.push(mp);
        }
    }
    proof {
        assert(seen == all);
        assert forall|a: i32|
            display@.contains(a) <==> with_ancestors_spec(matched@, map).contains(a) by {
            if display@.contains(a) {
                let k = choose|k: int|
                    0 <= k < all.len() && (all[k] == a || ancestors_of(map, all[k]).contains(a));
                assert(all.to_set().contains(all[k]));
            }
            if with_ancestors_spec(matched@, map).contains(a) {
                if matched@.contains(a) {
                    assert(all.to_set().contains(a));
                    let k = choose|k: int| 0 <= k < all.len() && all[k] == a;
                    assert(covered(map, all).contains(a));
                } else {
                    let m = choose|m: i32| matched@.contains(m) && ancestors_of(map, m).contains(a);
                    assert(all.to_set().contains(m));
                    let k = choose|k: int| 0 <= k < all.len() && all[k] == m;
                    assert(covered(map, all).contains(a));
                }
            }
        }
        assert(display@ =~= with_ancestors_spec(matched@, map));
    }
    display
}

/// The ppids of a pid-to-process map.
pub open spec fn ppids(lookup: Map<i32, ProcessInfo>) -> Map<i32, i32> {
    lookup.map_values(|p: ProcessInfo| p.ppid)
}

/// The expansion walk from `m` reaches link `k` (`k >= 1`): every link up
/// to it names a known process, and no link after the first is 0 or
/// repeats the one before it.
pub open spec fn expand_reaches(map: Map<i32, i32>, m: i32, k: nat) -> bool {
    &&& k >= 1
    &&& forall|s: nat| 1 <= s <= k ==> map.dom().contains(#[trigger] link(map, m, s))
    &&& forall|s: nat|
        1 <= s < k ==> #[trigger] link(map, m, s + 1) != 0 && link(map, m, s + 1) != link(map, m, s)
}

/// The pids the expansion walk from `m` passes.
pub open spec fn expansion_of(map: Map<i32, i32>, m: i32) -> Set<i32> {
    Set::new(|a: i32| exists|k: nat| expand_reaches(map, m, k) && link(map, m, k) == a)
}

/// The ancestors to expand so that every matched pid shows.
pub open spec fn ancestors_to_expand_spec(matched: Set<i32>, map: Map<i32, i32>) -> Set<i32> {
    Set::new(|a: i32| exists|m: i32| matched.contains(m) && expansion_of(map, m).contains(a))
}

/// The pids the expansion walk from `m` passes, each once, in walk order.
pub fn expand_walk(m: i32, pid_lookup: &HashMap<i32, ProcessInfo>) -> (r: Vec<i32>)
    ensures
        forall|a: i32| r@.contains(a) <==> expansion_of(ppids(pid_lookup@), m).contains(a),
{
    let ghost map = ppids(pid_lookup@);
    let mut walk: Vec<i32> = Vec::new();
    let mut current = match pid_lookup.get(&m) {
        Some(p) => p.ppid,
        None => 0,
    };
    assert(link(map, m, 0) == m);
    assert(current == link(map, m, 1));
    loop
        invariant_except_break
            current == link(map, m, (walk@.len() + 1) as nat),
            !walk@.contains(current),
            walk@.len() >= 1 ==> current != 0 && current != walk@.last(),
        invariant
            map == ppids(pid_lookup@),
            walk@.no_duplicates(),
            forall|k: int| 0 <= k < walk@.len() ==> walk@[k] == link(map, m, (k + 1) as nat),
            walk@.len() >= 1 ==> expand_reaches(map, m, walk@.len() as nat),
            forall|k: int| 0 <= k < walk@.len() ==> map.dom().contains(#[trigger] walk@[k]),
            walk@.len() <= map.dom().len(),
        ensures
            forall|k: int| 0 <= k < walk@.len() ==> walk@[k] == link(map, m, (k + 1) as nat),
            walk@.len() >= 1 ==> expand_reaches(map, m, walk@.len() as nat),
            ({
                let t = walk@.len() as nat;
                ||| !map.dom().contains(link(map, m, t + 1)) && (t == 0 || link(map, m, t + 1) != 0)
                ||| t >= 1 && (link(map, m, t + 1) == 0 || link(map, m, t + 1) == link(map, m, t))
                ||| t >= 1 && walk@.contains(link(map, m, t + 1))
            }),
        decreases map.dom().len() - walk@.len(),
    {
        let ghost t = walk@.len();
        let ghost old_walk = walk@;
        let found = pid_lookup.get(&current);
        let next = match found {
            None => {
                proof {
                    if t >= 1 {
                        assert(link(map, m, t as nat) == walk@[t - 1]);
                    }
                }
                break ;
            },
            Some(p) => p.ppid,
        };
        proof {
            assert(map.dom() =~= pid_lookup@.dom());
            assert(pid_lookup@.dom().finite());
            assert(map.dom().contains(current));
            let s = old_walk.push(current);
            assert(s.no_duplicates()) by {
                assert forall|a: int, b: int| 0 <= a < s.len() && 0 <= b < s.len() && a != b implies s[a] != s[b] by {
                    if a < t && b < t {
                        assert(s[a] == old_walk[a] && s[b] == old_walk[b]);
                    } else if a == t {
                        assert(s[b] == old_walk[b]);
                    } else {
                        assert(s[a] == old_walk[a]);
                    }
                }
            }
            assert(s.to_set().subset_of(map.dom())) by {
                assert forall|a: i32| s.to_set().contains(a) implies map.dom().contains(a) by {
                    let k = choose|k: int| 0 <= k < s.len() && s[k] == a;
                    if k < t {
                        assert(s[k] == old_walk[k]);
                    }
                }
            }
            s.unique_seq_to_set();
            vstd::set_lib::lemma_len_subset(s.to_set(), map.dom());
        }
        walk.push(current);
        proof {
            assert(walk@ == old_walk.push(current));
            assert(link(map, m, (t + 1) as nat) == current);
            assert(link(map, m, (t + 2) as nat) == next);
            assert forall|s: nat| 1 <= s <= t + 1 implies map.dom().contains(
                #[trigger] link(map, m, s),
            ) by {
                if s <= t {
                    assert(walk@[s - 1] == old_walk[s - 1]);
                }
            }
            assert(expand_reaches(map, m, (t + 1) as nat));
            assert forall|k: int| 0 <= k < walk@.len() implies map.dom().contains(#[trigger] walk@[k]) by {
                if k < t {
                    assert(walk@[k] == old_walk[k]);
                }
            }
            assert(walk@.no_duplicates()) by {
                assert forall|a: int, b: int|
                    0 <= a < walk@.len() && 0 <= b < walk@.len() && a != b implies walk@[a] != walk@[b] by {
                    if a < t && b < t {
                        assert(walk@[a] == old_walk[a] && walk@[b] == old_walk[b]);
                    } else if a == t {
                        assert(walk@[b] == old_walk[b]);
                    } else {
                        assert(walk@[a] == old_walk[a]);
                    }
                }
            }
        }
        if next == 0 || next == current {
            break ;
        }
        if holds_pid(&walk, next) {
            break ;
        }
        current = next;
    }
    proof {
        let t: nat = walk@.len() as nat;
        assert forall|a: i32| expansion_of(map, m).contains(a) implies walk@.contains(a) by {
            let k = choose|k: nat| expand_reaches(map, m, k) && link(map, m, k) == a;
            if k <= t {
                assert(walk@[k - 1] == a);
            } else {
                if !map.dom().contains(link(map, m, t + 1)) {
                    assert(map.dom().contains(link(map, m, t + 1)));
                } else if t >= 1 && (link(map, m, t + 1) == 0 || link(map, m, t + 1) == link(map, m, t)) {
                    assert(1 <= t < k);
                    assert(link(map, m, t + 1) != 0 && link(map, m, t + 1) != link(map, m, t));
                } else {
                    let j = choose|j: int| 0 <= j < walk@.len() && walk@[j] == link(map, m, t + 1);
                    lemma_link_cycle(map, m, t, (j + 1) as nat, k);
                    let s = choose|s: nat| 1 <= s <= t && link(map, m, k) == link(map, m, s);
                    assert(walk@[s - 1] == a);
                }
            }
        }
        assert forall|a: i32| walk@.contains(a) implies expansion_of(map, m).contains(a) by {
            let k = choose|k: int| 0 <= k < walk@.len() && walk@[k] == a;
            let kk: nat = (k + 1) as nat;
            assert forall|s: nat| 1 <= s <= kk implies map.dom().contains(#[trigger] link(map, m, s)) by {
            }
            assert(expand_reaches(map, m, kk));
        }
    }
    walk
}

/// The ancestors that must be expanded so that every matched process shows:
/// for each matched pid, the walk from its ppid up the known processes,
/// until a ppid of 0 or a process that is its own parent.
pub fn ancestors_to_expand(matched: &HashSet<i32>, pid_lookup: &HashMap<i32, ProcessInfo>) -> (r:
    HashSet<i32>)
    ensures
        r@ == ancestors_to_expand_spec(matched@, ppids(pid_lookup@)),
{
    let ghost map = ppids(pid_lookup@);
    let mut expand: HashSet<i32> = HashSet::new();
    let ghost all = vstd::std_specs::iter::IteratorSpec::remaining(
        &vstd::std_specs::hash::spec_hash_keys_iter(matched),
    ).unref();
    let ghost mut seen: Seq<i32> = seq![];
    assert(expand@ =~= expanded(map, seen));
    for m in it: matched.iter()
        invariant
            map == ppids(pid_lookup@),
            it.seq() == vstd::std_specs::iter::IteratorSpec::remaining(
                &vstd::std_specs::hash::spec_hash_keys_iter(matched),
            ),
            it.seq().unref() == all,
            all.to_set() == matched@,
            seen == all.take(it.index() as int),
            expand@ == expanded(map, seen),
    {
        let mp = *m;
        let walk = expand_walk(mp, pid_lookup);
        let mut i: usize = 0;
        while i < walk.len()
            invariant
                i <= walk@.len(),
                expand@ == expanded(map, seen).union(walk@.take(i as int).to_set()),
            decreases walk@.len() - i,
        {
            expand.insert(walk[i]);
            proof {
                assert(walk@.take(i + 1) == walk@.take(i as int).push(walk@[i as int]));
                walk@.take(i as int).lemma_push_to_set_commute(walk@[i as int]);
            }
            i = i + 1;
        }
        proof {
            assert(walk@.take(walk@.len() as int) == walk@);
            let next = seen.push(mp);
            assert forall|a: i32| expand@.contains(a) <==> expanded(map, next).contains(a) by {
                if expanded(map, next).contains(a) {
                    let k = choose|k: int| 0 <= k < next.len() && expansion_of(map, next[k]).contains(a);
                    if k < seen.len() {
                        assert(next[k] == seen[k]);
                    } else {
                        assert(walk@.contains(a));
                        assert(walk@.to_set().contains(a));
                    }
                }
                if expand@.contains(a) {
                    if expanded(map, seen).contains(a) {
                        let k = choose|k: int| 0 <= k < seen.len() && expansion_of(map, seen[k]).contains(a);
                        assert(next[k] == seen[k]);
                    } else {
                        assert(walk@.to_set().contains(a));
                        assert(walk@.contains(a));
                        assert(next[seen.len() as int] == mp);
                    }
                }
            }
            assert(expand@ =~= expanded(map, next));
            seen = seen.push(mp);
        }
    }
    proof {
        assert(seen == all);
        assert forall|a: i32|
            expand@.contains(a) <==> ancestors_to_expand_spec(matched@, map).contains(a) by {
            if expand@.contains(a) {
                let k = choose|k: int| 0 <= k < all.len() && expansion_of(map, all[k]).contains(a);
                assert(all.to_set().contains(all[k]));
            }
            if ancestors_to_expand_spec(matched@, map).contains(a) {
                let m = choose|m: i32| matched@.contains(m) && expansion_of(map, m).contains(a);
                assert(all.to_set().contains(m));
                let k = choose|k: int| 0 <= k < all.len() && all[k] == m;
                assert(expanded(map, all).contains(a));
            }
        }
        assert(expand@ =~= ancestors_to_expand_spec(matched@, map));
    }
    expand
}

/// The pids the expansion walks from the pids of `ms` pass.
pub open spec fn expanded(map: Map<i32, i32>, ms: Seq<i32>) -> Set<i32> {
    Set::new(|a: i32| exists|k: int| 0 <= k < ms.len() && expansion_of(map, ms[k]).contains(a))
}

} // verus!
