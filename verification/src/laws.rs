//! Properties that hold across the library's operations.

use crate::data::config::{col_visible_spec, column_entry_from, ColumnEntry};
use crate::data::merge::{field_index, merge_fields, merged, ValueView};
use crate::data::fuzzy::best_score_spec;
use crate::data::model::{
    Filter, FilterMode, PidFilterMode, ProcessInfo, SortColumn, SortDirection,
};
use crate::data::processes::delegate::{
    desc_walk, descendant_count_of, first_with_pid, is_descendant_spec, pin_spec,
    ProcessTableDelegate,
};
use crate::data::processes::lineage::{
    iter_up, lemma_iter_up_cycle, lemma_iter_up_none, lemma_slot, lemma_slot_of_own_pid, pids_distinct,
    reaches, slot, up,
};
use crate::data::processes::totals::{
    count_below, count_below_upto, counts_toward, first_up, mem_below, mem_below_upto,
};
use crate::data::platform::linux::system::{
    first_line, is_service_cgroup_spec, is_service_spec, InitSystem,
};
use crate::data::processes::rank::{text_order, Order};
use crate::snapshot::processes::{
    app_name_from, app_name_spec, capitalize_spec, parent_dir_name, path_file_stem,
};
use crate::data::settings::{swapped_layout, toggled_layout};
use crate::snapshot::collector::MemCounters;
use crate::text::{
    contains_seq, lowercase, words,
    all_digits, back_ws, decimal, digit_char, digits_value, find_from, is_ws, lines, lines_from,
    parse_u64_spec, skip_ws, strip_cr, trim, unsigned_body,
};
use vstd::prelude::*;

verus! {

// ---------------------------------------------------------------------
// Column layout
// ---------------------------------------------------------------------
proof fn lemma_entry_from_same_columns(
    a: Seq<ColumnEntry>,
    b: Seq<ColumnEntry>,
    col: SortColumn,
    i: int,
)
    requires
        a.len() == b.len(),
        forall|k: int| 0 <= k < a.len() ==> (#[trigger] a[k]).column == b[k].column,
    ensures
        column_entry_from(a, col, i) == column_entry_from(b, col, i),
    decreases a.len() - i,
{
    if 0 <= i < a.len() && a[i].column != col {
        lemma_entry_from_same_columns(a, b, col, i + 1);
    }
}

proof fn lemma_entry_from_bounds(a: Seq<ColumnEntry>, col: SortColumn, i: int)
    requires
        0 <= i,
    ensures
        column_entry_from(a, col, i) matches Some(k) ==> i <= k < a.len() && a[k].column == col,
    decreases a.len() - i,
{
    if i < a.len() && a[i].column != col {
        lemma_entry_from_bounds(a, col, i + 1);
    }
}

/// Toggling a column's visibility twice restores the layout.
pub proof fn law_toggle_twice_restores(cols: Seq<ColumnEntry>, col: SortColumn)
    ensures
        toggled_layout(toggled_layout(cols, col), col) == cols,
{
    lemma_entry_from_bounds(cols, col, 0);
    let once = toggled_layout(cols, col);
    lemma_entry_from_same_columns(cols, once, col, 0);
    assert(toggled_layout(once, col) =~= cols);
}

/// Toggling a column flips whether that column is shown, where the layout
/// has an entry for it, and leaves every other column as it was.
pub proof fn law_toggle_flips_only_its_column(
    cols: Seq<ColumnEntry>,
    col: SortColumn,
    other: SortColumn,
)
    ensures
        column_entry_from(cols, col, 0) is Some ==> col_visible_spec(toggled_layout(cols, col), col)
            == !col_visible_spec(cols, col),
        column_entry_from(cols, col, 0) is None ==> toggled_layout(cols, col) == cols,
        other != col ==> col_visible_spec(toggled_layout(cols, col), other) == col_visible_spec(
            cols,
            other,
        ),
{
    lemma_entry_from_bounds(cols, col, 0);
    lemma_entry_from_bounds(cols, other, 0);
    let once = toggled_layout(cols, col);
    lemma_entry_from_same_columns(cols, once, col, 0);
    lemma_entry_from_same_columns(cols, once, other, 0);
}

/// Exchanging the same two columns twice restores the layout.
pub proof fn law_swap_twice_restores(cols: Seq<ColumnEntry>, a: int, b: int)
    ensures
        swapped_layout(swapped_layout(cols, a, b), a, b) == cols,
{
    assert(swapped_layout(swapped_layout(cols, a, b), a, b) =~= cols);
}

/// Exchanging columns keeps the same entries: only their order changes.
pub proof fn law_swap_keeps_entries(cols: Seq<ColumnEntry>, a: int, b: int)
    ensures
        swapped_layout(cols, a, b).len() == cols.len(),
        swapped_layout(cols, a, b).to_multiset() == cols.to_multiset(),
{
    broadcast use vstd::seq_lib::to_multiset_update, vstd::multiset::group_multiset_axioms;

    if 0 <= a < cols.len() && 0 <= b < cols.len() {
        let s1 = cols.update(a, cols[b]);
        let s2 = s1.update(b, cols[a]);
        assert(s1.to_multiset() == cols.to_multiset().insert(cols[b]).remove(cols[a]));
        assert(s2.to_multiset() == s1.to_multiset().insert(cols[a]).remove(s1[b]));
        assert(s1[b] == cols[b]);
        assert(cols.to_multiset().count(cols[a]) > 0) by {
            broadcast use vstd::seq_lib::to_multiset_contains;

            assert(cols.contains(cols[a]));
        }
        assert(cols.to_multiset().count(cols[b]) > 0) by {
            broadcast use vstd::seq_lib::to_multiset_contains;

            assert(cols.contains(cols[b]));
        }
        assert forall|v: ColumnEntry| s2.to_multiset().count(v) == cols.to_multiset().count(v) by {
        }
        assert(s2.to_multiset() =~= cols.to_multiset());
    }
}

// ---------------------------------------------------------------------
// Process tree
// ---------------------------------------------------------------------
/// A process whose parent is `a` descends from `a` (unless the link is
/// none: a ppid of 0, or the process its own parent).
pub proof fn law_child_is_descendant(all: Seq<ProcessInfo>, c: i32, a: i32)
    requires
        slot(all, c) matches Some(k) && all[k].ppid == a,
        a != 0,
        a != c,
    ensures
        is_descendant_spec(all, c, a),
{
    reveal_with_fuel(crate::data::processes::delegate::desc_walk, 2);
}

/// No process descends from itself.
pub proof fn law_descendant_irreflexive(all: Seq<ProcessInfo>, p: i32)
    ensures
        !is_descendant_spec(all, p, p),
{
}

proof fn lemma_mem_below_upto_nonneg(all: Seq<ProcessInfo>, i: int, upto: int)
    ensures
        mem_below_upto(all, i, upto) >= 0,
    decreases upto,
{
    if upto > 0 {
        lemma_mem_below_upto_nonneg(all, i, upto - 1);
    }
}

proof fn lemma_mem_below_upto_own(all: Seq<ProcessInfo>, i: int, upto: int)
    requires
        0 <= i < upto <= all.len(),
    ensures
        mem_below_upto(all, i, upto) >= all[i].mem_rss,
    decreases upto,
{
    if upto - 1 == i {
        lemma_mem_below_upto_nonneg(all, i, upto - 1);
        assert(crate::data::processes::lineage::iter_up(all, i, 0) == Some(i));
        assert(reaches(all, i, i));
    } else {
        lemma_mem_below_upto_own(all, i, upto - 1);
    }
}

/// A process's memory summed over its subtree is at least its own.
pub proof fn law_cumulative_at_least_own(all: Seq<ProcessInfo>, i: int)
    requires
        0 <= i < all.len(),
    ensures
        mem_below(all, i) >= all[i].mem_rss,
{
    lemma_mem_below_upto_own(all, i, all.len() as int);
}

proof fn lemma_mem_below_upto_alone(all: Seq<ProcessInfo>, i: int, upto: int)
    requires
        0 <= i < all.len(),
        0 <= upto <= all.len(),
        forall|j: int| 0 <= j < all.len() && j != i ==> !reaches(all, j, i),
    ensures
        mem_below_upto(all, i, upto) == if i < upto {
            all[i].mem_rss as int
        } else {
            0
        },
    decreases upto,
{
    if upto > 0 {
        lemma_mem_below_upto_alone(all, i, upto - 1);
        if upto - 1 == i {
            assert(crate::data::processes::lineage::iter_up(all, i, 0) == Some(i));
            assert(reaches(all, i, i));
        }
    }
}

/// A process that no other process lies below sums only its own memory.
pub proof fn law_cumulative_of_leaf_is_own(all: Seq<ProcessInfo>, i: int)
    requires
        0 <= i < all.len(),
        forall|j: int| 0 <= j < all.len() && j != i ==> !reaches(all, j, i),
    ensures
        mem_below(all, i) == all[i].mem_rss,
{
    lemma_mem_below_upto_alone(all, i, all.len() as int);
}

// ---------------------------------------------------------------------
// Subtree sums
// ---------------------------------------------------------------------
/// `f(0) + ... + f(n - 1)`.
pub open spec fn sum_to(f: spec_fn(int) -> int, n: int) -> int
    decreases n,
{
    if n <= 0 {
        0
    } else {
        sum_to(f, n - 1) + f(n - 1)
    }
}

proof fn lemma_sum_ext(f: spec_fn(int) -> int, g: spec_fn(int) -> int, n: int)
    requires
        forall|k: int| 0 <= k < n ==> #[trigger] f(k) == g(k),
    ensures
        sum_to(f, n) == sum_to(g, n),
    decreases n,
{
    if n > 0 {
        lemma_sum_ext(f, g, n - 1);
    }
}

proof fn lemma_sum_add(f: spec_fn(int) -> int, g: spec_fn(int) -> int, n: int)
    ensures
        sum_to(|k: int| f(k) + g(k), n) == sum_to(f, n) + sum_to(g, n),
    decreases n,
{
    if n > 0 {
        lemma_sum_add(f, g, n - 1);
    }
}

proof fn lemma_sum_zero(f: spec_fn(int) -> int, n: int)
    requires
        forall|k: int| 0 <= k < n ==> #[trigger] f(k) == 0,
    ensures
        sum_to(f, n) == 0,
    decreases n,
{
    if n > 0 {
        lemma_sum_zero(f, n - 1);
    }
}

proof fn lemma_sum_single(f: spec_fn(int) -> int, n: int, c: int)
    requires
        0 <= c < n,
        forall|k: int| 0 <= k < n && k != c ==> #[trigger] f(k) == 0,
    ensures
        sum_to(f, n) == f(c),
    decreases n,
{
    if n - 1 == c {
        lemma_sum_zero(f, n - 1);
    } else {
        lemma_sum_single(f, n - 1, c);
    }
}

/// A double sum can be taken in either order.
proof fn lemma_sum_interchange(f: spec_fn(int, int) -> int, rows: int, cols: int)
    ensures
        sum_to(|j: int| sum_to(|c: int| f(j, c), cols), rows) == sum_to(
            |c: int| sum_to(|j: int| f(j, c), rows),
            cols,
        ),
    decreases rows,
{
    if rows <= 0 {
        lemma_sum_zero(|c: int| sum_to(|j: int| f(j, c), rows), cols);
    } else {
        lemma_sum_interchange(f, rows - 1, cols);
        let a = |c: int| sum_to(|j: int| f(j, c), rows - 1);
        let b = |c: int| f(rows - 1, c);
        lemma_sum_add(a, b, cols);
        lemma_sum_ext(
            |k: int| a(k) + b(k),
            |c: int| sum_to(|j: int| f(j, c), rows),
            cols,
        );
    }
}

/// No process lies above itself by one or more parent links.
pub open spec fn acyclic(all: Seq<ProcessInfo>) -> bool {
    forall|j: int, k: nat| 0 <= j < all.len() && k >= 1 ==> #[trigger] iter_up(all, j, k) != Some(j)
}

proof fn lemma_iter_up_compose(all: Seq<ProcessInfo>, j: int, a: nat, m: nat)
    ensures
        iter_up(all, j, a + m) == match iter_up(all, j, a) {
            Some(x) => iter_up(all, x, m),
            None => None,
        },
    decreases m,
{
    if m > 0 {
        lemma_iter_up_compose(all, j, a, (m - 1) as nat);
        assert((a + m - 1) as nat == a + (m - 1) as nat);
        match iter_up(all, j, a) {
            Some(x) => {},
            None => {},
        }
    }
}

proof fn lemma_iter_up_in_range(all: Seq<ProcessInfo>, j: int, k: nat)
    requires
        0 <= j < all.len(),
    ensures
        iter_up(all, j, k) matches Some(x) ==> 0 <= x < all.len(),
    decreases k,
{
    if k > 0 {
        lemma_iter_up_in_range(all, j, (k - 1) as nat);
        match iter_up(all, j, (k - 1) as nat) {
            Some(x) => lemma_slot(all, all[x].ppid),
            None => {},
        }
    }
}

/// A process lies at or below `i` exactly when it is `i` or lies at or
/// below exactly one child of `i`.
proof fn lemma_reaches_split(all: Seq<ProcessInfo>, i: int, j: int)
    requires
        acyclic(all),
        0 <= i < all.len(),
        0 <= j < all.len(),
    ensures
        (if reaches(all, j, i) {
            all[j].mem_rss as int
        } else {
            0
        }) == (if j == i {
            all[j].mem_rss as int
        } else {
            0
        }) + sum_to(
            |c: int|
                if up(all, c) == Some(i) && reaches(all, j, c) {
                    all[j].mem_rss as int
                } else {
                    0
                },
            all.len() as int,
        ),
{
    let n = all.len() as int;
    let g = |c: int|
        if up(all, c) == Some(i) && reaches(all, j, c) {
            all[j].mem_rss as int
        } else {
            0
        };
    // A child that `j` reaches puts `i` one link further up.
    assert forall|c: int| up(all, c) == Some(i) && reaches(all, j, c) implies exists|k: nat|
        k >= 1 && #[trigger] iter_up(all, j, k) == Some(i) by {
        let k = choose|k: nat| iter_up(all, j, k) == Some(c);
        assert(iter_up(all, j, k + 1) == Some(i));
    }
    if j == i {
        assert(iter_up(all, i, 0) == Some(i));
        assert forall|c: int| 0 <= c < n implies #[trigger] g(c) == 0 by {
            if up(all, c) == Some(i) && reaches(all, j, c) {
                let k = choose|k: nat| k >= 1 && #[trigger] iter_up(all, j, k) == Some(i);
            }
        }
        lemma_sum_zero(g, n);
    } else if reaches(all, j, i) {
        let k = choose|k: nat| iter_up(all, j, k) == Some(i);
        assert(k >= 1);
        let k0 = (k - 1) as nat;
        let c0 = iter_up(all, j, k0).unwrap();
        assert(iter_up(all, j, k0) is Some);
        lemma_iter_up_in_range(all, j, k0);
        assert(up(all, c0) == Some(i));
        assert(reaches(all, j, c0));
        assert forall|c: int| 0 <= c < n && c != c0 implies #[trigger] g(c) == 0 by {
            if up(all, c) == Some(i) && reaches(all, j, c) {
                let k1 = choose|k1: nat| iter_up(all, j, k1) == Some(c);
                assert(iter_up(all, j, k1 + 1) == Some(i));
                if k1 + 1 < k {
                    lemma_iter_up_compose(all, j, k1 + 1, (k - (k1 + 1)) as nat);
                    assert(iter_up(all, i, (k - (k1 + 1)) as nat) == Some(i));
                } else if k1 + 1 > k {
                    lemma_iter_up_compose(all, j, k, (k1 + 1 - k) as nat);
                    assert(iter_up(all, i, (k1 + 1 - k) as nat) == Some(i));
                }
            }
        }
        lemma_sum_single(g, n, c0);
    } else {
        assert forall|c: int| 0 <= c < n implies #[trigger] g(c) == 0 by {
            if up(all, c) == Some(i) && reaches(all, j, c) {
                let k = choose|k: nat| k >= 1 && #[trigger] iter_up(all, j, k) == Some(i);
            }
        }
        lemma_sum_zero(g, n);
    }
}

proof fn lemma_mem_as_sum(all: Seq<ProcessInfo>, i: int, upto: int)
    ensures
        mem_below_upto(all, i, upto) == sum_to(
            |j: int|
                if reaches(all, j, i) {
                    all[j].mem_rss as int
                } else {
                    0
                },
            upto,
        ),
    decreases upto,
{
    if upto > 0 {
        lemma_mem_as_sum(all, i, upto - 1);
    }
}

/// Without parent cycles, a process's memory summed over its subtree is its
/// own memory plus the subtree sums of its children.
pub proof fn law_cumulative_is_own_plus_children(all: Seq<ProcessInfo>, i: int)
    requires
        acyclic(all),
        0 <= i < all.len(),
    ensures
        mem_below(all, i) == all[i].mem_rss + sum_to(
            |c: int|
                if up(all, c) == Some(i) {
                    mem_below(all, c)
                } else {
                    0
                },
            all.len() as int,
        ),
{
    let n = all.len() as int;
    let ind = |j: int|
        if reaches(all, j, i) {
            all[j].mem_rss as int
        } else {
            0
        };
    let own = |j: int|
        if j == i {
            all[j].mem_rss as int
        } else {
            0
        };
    let g = |j: int, c: int|
        if up(all, c) == Some(i) && reaches(all, j, c) {
            all[j].mem_rss as int
        } else {
            0
        };
    lemma_mem_as_sum(all, i, n);
    assert forall|j: int| 0 <= j < n implies #[trigger] ind(j) == own(j) + sum_to(|c: int| g(j, c), n) by {
        lemma_reaches_split(all, i, j);
        lemma_sum_ext(
            |c: int|
                if up(all, c) == Some(i) && reaches(all, j, c) {
                    all[j].mem_rss as int
                } else {
                    0
                },
            |c: int| g(j, c),
            n,
        );
    }
    let rows = |j: int| sum_to(|c: int| g(j, c), n);
    lemma_sum_ext(ind, |k: int| own(k) + rows(k), n);
    lemma_sum_add(own, rows, n);
    lemma_sum_single(own, n, i);
    lemma_sum_interchange(g, n, n);
    let cols = |c: int| sum_to(|j: int| g(j, c), n);
    let kids = |c: int|
        if up(all, c) == Some(i) {
            mem_below(all, c)
        } else {
            0
        };
    assert forall|c: int| 0 <= c < n implies #[trigger] cols(c) == kids(c) by {
        if up(all, c) == Some(i) {
            lemma_mem_as_sum(all, c, n);
            lemma_sum_ext(
                |j: int| g(j, c),
                |j: int|
                    if reaches(all, j, c) {
                        all[j].mem_rss as int
                    } else {
                        0
                    },
                n,
            );
        } else {
            lemma_sum_zero(|j: int| g(j, c), n);
        }
    }
    lemma_sum_ext(cols, kids, n);
    lemma_sum_ext(|j: int| sum_to(|c: int| g(j, c), n), rows, n);
}

// ---------------------------------------------------------------------
// Rows
// ---------------------------------------------------------------------
proof fn lemma_first_with_pid(all: Seq<ProcessInfo>, o: Seq<int>, pid: i32, k: int, w: int)
    requires
        0 <= k <= w < o.len(),
        all[o[w]].pid == pid,
    ensures
        first_with_pid(all, o, pid, k) matches Some(p) && k <= p <= w && all[o[p]].pid == pid,
    decreases w - k,
{
    if all[o[k]].pid != pid {
        lemma_first_with_pid(all, o, pid, k + 1, w);
    }
}

/// When a row shows the pinned pid, the rows keep their number and their
/// members, and the first row is a process with the pinned pid.
pub proof fn law_pinned_row_first(all: Seq<ProcessInfo>, o: Seq<int>, pid: i32, w: int)
    requires
        0 <= w < o.len(),
        all[o[w]].pid == pid,
    ensures
        pin_spec(all, o, Some(pid)).len() == o.len(),
        all[pin_spec(all, o, Some(pid))[0]].pid == pid,
        pin_spec(all, o, Some(pid)).to_multiset() == o.to_multiset(),
{
    lemma_first_with_pid(all, o, pid, 0, w);
    let pos = first_with_pid(all, o, pid, 0).unwrap();
    if pos > 0 {
        broadcast use vstd::seq_lib::lemma_multiset_commutative, vstd::multiset::group_multiset_axioms;

        let x = seq![o[pos]];
        let t = o.take(pos);
        let u = o.skip(pos + 1);
        assert(o =~= t + x + u);
        assert((x + t + u).to_multiset() =~= x.to_multiset().add(t.to_multiset()).add(
            u.to_multiset(),
        ));
        assert((t + x + u).to_multiset() =~= t.to_multiset().add(x.to_multiset()).add(
            u.to_multiset(),
        ));
    }
}

// ---------------------------------------------------------------------
// Numbers and figures
// ---------------------------------------------------------------------
proof fn lemma_decimal_digits(n: nat)
    ensures
        decimal(n).len() > 0,
        all_digits(decimal(n)),
        digits_value(decimal(n)) == n,
        decimal(n)[0] != '+',
    decreases n,
{
    if n >= 10 {
        lemma_decimal_digits(n / 10);
        let s = decimal(n);
        assert(s == decimal(n / 10).push(digit_char(n % 10)));
        assert(s.drop_last() =~= decimal(n / 10));
        assert(crate::text::digit_value(digit_char(n % 10)) == n % 10);
        assert(n == (n / 10) * 10 + n % 10) by (nonlinear_arith);
        assert(s.last() == digit_char(n % 10));
        assert(digits_value(s) == digits_value(s.drop_last()) * 10 + crate::text::digit_value(
            s.last(),
        ));
        assert forall|i: int| 0 <= i < s.len() implies crate::text::is_digit(#[trigger] s[i]) by {
            if i < s.len() - 1 {
                assert(s[i] == decimal(n / 10)[i]);
            }
        }
    } else {
        assert(decimal(n) == seq![digit_char(n)]);
        assert(crate::text::digit_value(digit_char(n)) == n);
        assert(digits_value(decimal(n)) == digits_value(decimal(n).drop_last()) * 10
            + crate::text::digit_value(decimal(n).last()));
        assert(decimal(n).drop_last() =~= Seq::<char>::empty());
    }
}

/// Reading back the decimal text of a number gives the number.
pub proof fn law_parse_decimal_roundtrip(n: u64)
    ensures
        parse_u64_spec(decimal(n as nat)) == Some(n),
{
    lemma_decimal_digits(n as nat);
    assert(unsigned_body(decimal(n as nat)) == decimal(n as nat));
}

/// Where free memory, buffers and cache do not exceed the total, the used
/// memory and those parts add up to the total.
pub proof fn law_memory_parts_add_up(m: MemCounters)
    requires
        m.fits(),
        m.mem_free + m.buffers + m.cache_spec() <= m.mem_total,
    ensures
        m.summary_spec().used + m.mem_free + m.buffers + m.summary_spec().cached == m.mem_total,
{
}

// ---------------------------------------------------------------------
// Configuration merge
// ---------------------------------------------------------------------
proof fn lemma_field_index_found(fs: Seq<(Seq<char>, ValueView)>, n: Seq<char>, i: int)
    requires
        0 <= i,
    ensures
        field_index(fs, n, i) matches Some(k) ==> i <= k < fs.len() && fs[k].0 == n,
    decreases fs.len() - i,
{
    if i < fs.len() && fs[i].0 != n {
        lemma_field_index_found(fs, n, i + 1);
    }
}

proof fn lemma_merge_fields_names(bf: Seq<(Seq<char>, ValueView)>, of: Seq<(Seq<char>, ValueView)>)
    ensures
        merge_fields(bf, of).len() >= bf.len(),
        forall|k: int| 0 <= k < bf.len() ==> #[trigger] merge_fields(bf, of)[k].0 == bf[k].0,
        forall|j: int|
            0 <= j < of.len() ==> exists|i: int|
                0 <= i < merge_fields(bf, of).len() && merge_fields(bf, of)[i].0 == #[trigger] of[j].0,
    decreases of.len(),
{
    if of.len() > 0 {
        let n = of[0].0;
        let x = of[0].1;
        lemma_field_index_found(bf, n, 0);
        let next = match field_index(bf, n, 0) {
            Some(k) => if 0 <= k < bf.len() {
                bf.update(k, (bf[k].0, merged(bf[k].1, x)))
            } else {
                bf
            },
            None => bf.push((n, x)),
        };
        let pos: int = match field_index(bf, n, 0) {
            Some(k) => k,
            None => bf.len() as int,
        };
        assert(next[pos].0 == n);
        lemma_merge_fields_names(next, of.drop_first());
        let r = merge_fields(bf, of);
        assert(r == merge_fields(next, of.drop_first()));
        assert(r[pos].0 == n);
        assert forall|k: int| 0 <= k < bf.len() implies #[trigger] r[k].0 == bf[k].0 by {
            assert(next[k].0 == bf[k].0);
        }
        assert forall|j: int| 0 <= j < of.len() implies exists|i: int|
            0 <= i < r.len() && r[i].0 == #[trigger] of[j].0 by {
            if j == 0 {
                assert(r[pos].0 == of[0].0);
            } else {
                assert(of[j] == of.drop_first()[j - 1]);
            }
        }
    }
}

/// Merging a record into a record keeps every field of the base, by name,
/// in its place (new fields only come after them), and the result has a
/// field for every field name of the overlay.
pub proof fn law_merge_keeps_fields(
    base: Seq<(Seq<char>, ValueView)>,
    overlay: Seq<(Seq<char>, ValueView)>,
)
    ensures
        merged(ValueView::Struct(base), ValueView::Struct(overlay)) == ValueView::Struct(
            merge_fields(base, overlay),
        ),
        merge_fields(base, overlay).len() >= base.len(),
        forall|k: int|
            0 <= k < base.len() ==> #[trigger] merge_fields(base, overlay)[k].0 == base[k].0,
        forall|j: int|
            0 <= j < overlay.len() ==> exists|i: int|
                0 <= i < merge_fields(base, overlay).len() && merge_fields(base, overlay)[i].0
                    == #[trigger] overlay[j].0,
{
    lemma_merge_fields_names(base, overlay);
}

/// Merging an empty record into a record changes nothing.
pub proof fn law_merge_empty_overlay(base: Seq<(Seq<char>, ValueView)>)
    ensures
        merged(ValueView::Struct(base), ValueView::Struct(Seq::empty())) == ValueView::Struct(base),
{
}

// ---------------------------------------------------------------------
// Descendant counts and descendant walks
// ---------------------------------------------------------------------
/// How many of the first `upto` listed processes `is_descendant_of` finds
/// below the pid `x`.
pub open spec fn descendants_found_upto(all: Seq<ProcessInfo>, x: i32, upto: int) -> nat
    decreases upto,
{
    if upto <= 0 {
        0
    } else {
        descendants_found_upto(all, x, upto - 1) + if is_descendant_spec(all, all[upto - 1].pid, x) {
            1nat
        } else {
            0nat
        }
    }
}

/// Every chain of parent links ends within 100 links (so no chain loops).
pub open spec fn chains_end_within_100(all: Seq<ProcessInfo>) -> bool {
    forall|i: int| 0 <= i < all.len() ==> (#[trigger] iter_up(all, i, 100)) is None
}

/// No process is its own parent.
pub open spec fn no_self_parent(all: Seq<ProcessInfo>) -> bool {
    forall|i: int| 0 <= i < all.len() ==> (#[trigger] all[i]).ppid != all[i].pid
}

proof fn lemma_iter_up_from_parent(all: Seq<ProcessInfo>, i: int, j: int, m: nat)
    requires
        up(all, i) == Some(j),
    ensures
        iter_up(all, i, m + 1) == iter_up(all, j, m),
    decreases m,
{
    if m > 0 {
        lemma_iter_up_from_parent(all, i, j, (m - 1) as nat);
        assert((m - 1) as nat + 1 == m);
        assert(iter_up(all, i, m + 1) == match iter_up(all, i, m) {
            Some(q) => up(all, q),
            None => None,
        });
        assert(iter_up(all, j, m) == match iter_up(all, j, (m - 1) as nat) {
            Some(q) => up(all, q),
            None => None,
        });
    } else {
        reveal_with_fuel(iter_up, 2);
    }
}

/// With distinct pids, the bounded walk by pid from process `q` finds
/// process `k` exactly when `k` is among the first `f` entries of the
/// parent chain from `q`.
proof fn lemma_desc_walk_chain(all: Seq<ProcessInfo>, q: int, k: int, f: nat)
    requires
        pids_distinct(all),
        0 <= q < all.len(),
        0 <= k < all.len(),
    ensures
        desc_walk(all, all[q].pid, all[k].pid, f) <==> exists|m: nat|
            m < f && #[trigger] iter_up(all, q, m) == Some(k),
    decreases f,
{
    let x = all[k].pid;
    if f == 0 {
    } else if all[q].pid == x {
        assert(q == k);
        assert(iter_up(all, q, 0) == Some(k));
    } else {
        assert(q != k);
        lemma_slot_of_own_pid(all, q);
        lemma_slot_of_own_pid(all, k);
        let p = all[q].ppid;
        lemma_slot(all, p);
        if p == 0 || p == all[q].pid || slot(all, p) is None {
            assert(up(all, q) is None);
            assert(iter_up(all, q, 1) is None);
            if p != 0 && p != all[q].pid {
                assert(p != x);
                reveal_with_fuel(desc_walk, 2);
            }
            assert forall|m: nat| m < f implies #[trigger] iter_up(all, q, m) != Some(k) by {
                if m >= 1 {
                    lemma_iter_up_none(all, q, 1, (m - 1) as nat);
                }
            }
        } else {
            let q2 = slot(all, p).unwrap();
            assert(up(all, q) == Some(q2));
            assert(all[q2].pid == p);
            lemma_desc_walk_chain(all, q2, k, (f - 1) as nat);
            assert(desc_walk(all, all[q].pid, x, f) == desc_walk(all, p, x, (f - 1) as nat));
            if desc_walk(all, p, x, (f - 1) as nat) {
                let m = choose|m: nat| m < f - 1 && #[trigger] iter_up(all, q2, m) == Some(k);
                lemma_iter_up_from_parent(all, q, q2, m);
                assert(iter_up(all, q, m + 1) == Some(k));
            }
            if exists|m: nat| m < f && #[trigger] iter_up(all, q, m) == Some(k) {
                let m = choose|m: nat| m < f && #[trigger] iter_up(all, q, m) == Some(k);
                assert(m != 0);
                lemma_iter_up_from_parent(all, q, q2, (m - 1) as nat);
                assert(iter_up(all, q2, (m - 1) as nat) == Some(k));
            }
        }
    }
}

/// Under distinct pids, no self-parent and chains that end within 100
/// links, the upward walk from `p` counts `k` exactly when
/// `is_descendant_of` finds `p` below `k`.
proof fn lemma_counts_toward_iff_descendant(all: Seq<ProcessInfo>, p: int, k: int)
    requires
        pids_distinct(all),
        no_self_parent(all),
        chains_end_within_100(all),
        0 <= p < all.len(),
        0 <= k < all.len(),
    ensures
        counts_toward(all, p, k) <==> is_descendant_spec(all, all[p].pid, all[k].pid),
{
    assert(all[p].ppid != all[p].pid);
    assert(first_up(all, p) == up(all, p));
    assert(iter_up(all, p, 1) == up(all, p)) by {
        reveal_with_fuel(iter_up, 2);
    }
    lemma_desc_walk_chain(all, p, k, 100);
    assert(iter_up(all, p, 100) is None);
    if counts_toward(all, p, k) {
        let f = up(all, p).unwrap();
        let m = choose|m: nat| iter_up(all, f, m) == Some(k);
        lemma_iter_up_from_parent(all, p, f, m);
        assert(iter_up(all, p, m + 1) == Some(k));
        if m + 1 >= 100 {
            lemma_iter_up_none(all, p, 100, (m + 1 - 100) as nat);
            assert((100 + (m + 1 - 100) as nat) as nat == m + 1);
        }
        if p == k {
            // a chain that comes back to `k` never ends
            assert(iter_up(all, k, 0) == Some(k));
            lemma_iter_up_cycle(all, k, m, 0, 100);
            let s = choose|s: nat| s <= m && iter_up(all, k, 100) == #[trigger] iter_up(all, k, s);
            assert(iter_up(all, k, 100) is None);
            lemma_iter_up_none(all, k, s, (m + 1 - s) as nat);
            assert((s + (m + 1 - s) as nat) as nat == m + 1);
        }
        assert(all[p].pid != all[k].pid);
    }
    if is_descendant_spec(all, all[p].pid, all[k].pid) {
        let m = choose|m: nat| m < 100 && #[trigger] iter_up(all, p, m) == Some(k);
        assert(p != k);
        assert(m != 0);
        if iter_up(all, p, 1) is None {
            lemma_iter_up_none(all, p, 1, (m - 1) as nat);
            assert((1 + (m - 1) as nat) as nat == m);
        }
        let f = up(all, p).unwrap();
        lemma_iter_up_from_parent(all, p, f, (m - 1) as nat);
        assert(iter_up(all, f, (m - 1) as nat) == Some(k));
        assert(reaches(all, f, k));
    }
}

proof fn lemma_count_upto_matches(all: Seq<ProcessInfo>, k: int, upto: int)
    requires
        pids_distinct(all),
        no_self_parent(all),
        chains_end_within_100(all),
        0 <= k < all.len(),
        0 <= upto <= all.len(),
    ensures
        count_below_upto(all, k, upto) == descendants_found_upto(all, all[k].pid, upto),
    decreases upto,
{
    if upto > 0 {
        lemma_count_upto_matches(all, k, upto - 1);
        lemma_counts_toward_iff_descendant(all, upto - 1, k);
    }
}

/// Where pids are distinct, no process is its own parent and every chain
/// of parents ends within 100 links, the descendant count of a listed pid
/// is the number of listed processes that `is_descendant_of` finds below
/// it.
pub proof fn law_descendant_count_matches_walks(all: Seq<ProcessInfo>, x: i32)
    requires
        pids_distinct(all),
        no_self_parent(all),
        chains_end_within_100(all),
        slot(all, x) is Some,
    ensures
        descendant_count_of(all, x) == descendants_found_upto(all, x, all.len() as int),
{
    lemma_slot(all, x);
    let k = slot(all, x).unwrap();
    lemma_count_upto_matches(all, k, all.len() as int);
}

// ---------------------------------------------------------------------
// Service cgroups
// ---------------------------------------------------------------------
proof fn lemma_skip_ws_drop_ws(x: Seq<char>, i: int)
    requires
        x.len() > 0,
        is_ws(x.last()),
        0 <= i <= x.len() - 1,
    ensures
        skip_ws(x, i) == (if skip_ws(x.drop_last(), i) < x.len() - 1 {
            skip_ws(x.drop_last(), i)
        } else {
            x.len() as int
        }),
    decreases x.len() - i,
{
    let y = x.drop_last();
    if i < y.len() {
        assert(x[i] == y[i]);
        if is_ws(y[i]) {
            lemma_skip_ws_drop_ws(x, i + 1);
        }
    } else {
        assert(skip_ws(y, i) == i);
        assert(x[i] == x.last());
        assert(skip_ws(x, i) == skip_ws(x, i + 1));
        assert(skip_ws(x, i + 1) == i + 1);
    }
}

proof fn lemma_back_ws_prefix(x: Seq<char>, y: Seq<char>, a: int, j: int)
    requires
        y.len() <= x.len(),
        forall|k: int| 0 <= k < y.len() ==> #[trigger] y[k] == x[k],
        0 <= a <= j <= y.len(),
    ensures
        back_ws(x, a, j) == back_ws(y, a, j),
    decreases j - a,
{
    if a < j {
        lemma_back_ws_prefix(x, y, a, j - 1);
    }
}

/// Trimming ignores one trailing carriage return.
proof fn lemma_trim_strip_cr(x: Seq<char>)
    ensures
        trim(strip_cr(x)) == trim(x),
{
    if x.len() > 0 && x.last() == '\r' {
        let y = x.drop_last();
        assert(is_ws(x.last()));
        lemma_skip_ws_drop_ws(x, 0);
        crate::text::lemma_skip_ws_bounds(y, 0);
        let a = skip_ws(y, 0);
        if a < y.len() {
            assert(back_ws(x, a, x.len() as int) == back_ws(x, a, y.len() as int));
            lemma_back_ws_prefix(x, y, a, y.len() as int);
            crate::text::lemma_back_ws_bounds(y, a, y.len() as int);
            assert(trim(x) =~= trim(y));
        } else {
            assert(trim(x) =~= Seq::<char>::empty());
            assert(trim(y) =~= Seq::<char>::empty());
        }
    }
}

proof fn lemma_find_from_append_newline(s: Seq<char>, t: Seq<char>, i: int)
    requires
        0 <= i <= s.len(),
    ensures
        find_from(s + seq!['\n'] + t, '\n', i) == (match find_from(s, '\n', i) {
            Some(j) => Some(j),
            None => Some(s.len() as int),
        }),
    decreases s.len() - i,
{
    let u = s + seq!['\n'] + t;
    if i < s.len() {
        assert(u[i] == s[i]);
        if s[i] != '\n' {
            lemma_find_from_append_newline(s, t, i + 1);
        }
    } else {
        assert(u[i] == '\n');
    }
}

/// Whether a cgroup text names a systemd service depends on its first line
/// alone: a newline and any text after it change nothing.
pub proof fn law_service_cgroup_first_line_only(s: Seq<char>, t: Seq<char>)
    ensures
        is_service_cgroup_spec(s + seq!['\n'] + t) == is_service_cgroup_spec(s),
{
    let u = s + seq!['\n'] + t;
    lemma_find_from_append_newline(s, t, 0);
    crate::text::lemma_find_from_bounds(s, '\n', 0);
    let j: int = match find_from(s, '\n', 0) {
        Some(j) => j,
        None => s.len() as int,
    };
    assert(lines(u)[0] == strip_cr(u.subrange(0, j)));
    assert(u.subrange(0, j) =~= s.subrange(0, j));
    assert(first_line(u) == strip_cr(s.subrange(0, j)));
    if s.len() == 0 {
        assert(s.subrange(0, 0) =~= Seq::<char>::empty());
        assert(first_line(u) =~= Seq::<char>::empty());
    } else {
        match find_from(s, '\n', 0) {
            Some(j) => {
                assert(first_line(s) == strip_cr(s.subrange(0, j)));
            },
            None => {
                assert(first_line(s) == s.subrange(0, s.len() as int));
                assert(s.subrange(0, s.len() as int) =~= s);
                lemma_trim_strip_cr(s);
            },
        }
    }
}

// ---------------------------------------------------------------------
// The process table: sort columns and filters
// ---------------------------------------------------------------------
/// Two rows tie on the search: there is no search text, or both rows get
/// the same best fuzzy score for it.
pub open spec fn same_search_score(d: ProcessTableDelegate, i: int, j: int) -> bool {
    d.search_text().len() == 0 || best_score_spec(d.search_text(), d.processes@[i])
        == best_score_spec(d.search_text(), d.processes@[j])
}

/// Sorted by the User column, rows that tie on the search are ordered by
/// their lowercased user names in code-point order: ascending puts the
/// smaller user first, descending the larger; and a row that comes first
/// in ascending order never has the larger user name.
pub proof fn law_user_column_sorts_by_user(d: ProcessTableDelegate, i: int, j: int)
    requires
        d.view_state.sort_col == 3,
        0 <= i < d.processes@.len(),
        0 <= j < d.processes@.len(),
        same_search_score(d, i, j),
    ensures
        d.view_state.sort_dir == SortDirection::Ascending && text_order(
            lowercase(d.processes@[i].user@),
            lowercase(d.processes@[j].user@),
        ) == Order::Less ==> d.before(i, j),
        d.view_state.sort_dir == SortDirection::Descending && text_order(
            lowercase(d.processes@[i].user@),
            lowercase(d.processes@[j].user@),
        ) == Order::Greater ==> d.before(i, j),
        d.view_state.sort_dir == SortDirection::Ascending && d.before(i, j) ==> text_order(
            lowercase(d.processes@[i].user@),
            lowercase(d.processes@[j].user@),
        ) != Order::Greater,
{
}

/// Sorted by the Name column, rows that tie on the search are ordered by
/// their lowercased names in code-point order, in the sort direction.
pub proof fn law_name_column_sorts_by_name(d: ProcessTableDelegate, i: int, j: int)
    requires
        d.view_state.sort_col == 1,
        0 <= i < d.processes@.len(),
        0 <= j < d.processes@.len(),
        same_search_score(d, i, j),
    ensures
        d.view_state.sort_dir == SortDirection::Ascending && text_order(
            lowercase(d.processes@[i].name@),
            lowercase(d.processes@[j].name@),
        ) == Order::Less ==> d.before(i, j),
        d.view_state.sort_dir == SortDirection::Descending && text_order(
            lowercase(d.processes@[i].name@),
            lowercase(d.processes@[j].name@),
        ) == Order::Greater ==> d.before(i, j),
        d.view_state.sort_dir == SortDirection::Ascending && d.before(i, j) ==> text_order(
            lowercase(d.processes@[i].name@),
            lowercase(d.processes@[j].name@),
        ) != Order::Greater,
{
}

/// The System filter keeps only processes that are no kernel threads, are
/// not the current user's, and are not children of process 1.
pub proof fn law_system_filter_excludes_init_children(d: ProcessTableDelegate, p: ProcessInfo)
    ensures
        d.matches_spec(p, Filter::System) ==> p.ppid != 1 && !p.is_kthread
            && !p.is_owned_by_current_user,
        p.ppid == 1 ==> !d.matches_spec(p, Filter::System),
{
}

/// A process always meets the Pid filter of its own pid, in either pid
/// filter mode; a direct child of the pid meets it in either mode too.
pub proof fn law_pid_filter_keeps_pinned_process(d: ProcessTableDelegate, p: ProcessInfo, x: i32)
    ensures
        d.matches_spec(p, Filter::Pid(p.pid)),
        d.view_state.pid_filter_mode == PidFilterMode::DirectChildren ==> (d.matches_spec(
            p,
            Filter::Pid(x),
        ) <==> (p.pid == x || p.ppid == x)),
        d.view_state.pid_filter_mode == PidFilterMode::AllDescendants ==> (d.matches_spec(
            p,
            Filter::Pid(x),
        ) <==> (p.pid == x || is_descendant_spec(d.processes@, p.pid, x))),
{
}

/// Under systemd, whether a process with a control group is a service is
/// decided by that control group alone (`is_systemd_service_cgroup`), never
/// by its parent: two processes with the same non-empty control group are
/// both services or both not.
pub proof fn law_systemd_service_by_cgroup(
    p: ProcessInfo,
    q: ProcessInfo,
    runsv: Set<i32>,
    supervise: Set<i32>,
)
    requires
        p.cgroup@.len() > 0,
    ensures
        is_service_spec(p, InitSystem::Systemd, runsv, supervise) == is_service_cgroup_spec(
            p.cgroup@,
        ),
        q.cgroup@ == p.cgroup@ ==> is_service_spec(q, InitSystem::Systemd, runsv, supervise)
            == is_service_spec(p, InitSystem::Systemd, runsv, supervise),
{
}

// ---------------------------------------------------------------------
// Electron application names
// ---------------------------------------------------------------------
proof fn lemma_app_name_skips(parts: Seq<Seq<char>>, i: int, k: int)
    requires
        1 <= i <= k < parts.len(),
        forall|m: int|
            i <= m < k ==> (#[trigger] parts[m]).len() > 0 && parts[m][0] == '-' || !contains_seq(
                parts[m],
                "/"@,
            ),
    ensures
        app_name_from(parts, i) == app_name_from(parts, k),
    decreases k - i,
{
    if i < k {
        lemma_app_name_skips(parts, i + 1, k);
        assert(parts[i].len() > 0 && parts[i][0] == '-' || !contains_seq(parts[i], "/"@));
    }
}

/// For a process named like electron whose first path argument after the
/// binary lies in a directory whose lowercased name contains "electron",
/// that directory never names the application: where the argument's file
/// stem does not name electron, the name is the capitalized file stem.
pub proof fn law_electron_dir_is_skipped(cmdline: Seq<char>, name: Seq<char>, k: int)
    requires
        contains_seq(lowercase(name), "electron"@),
        1 <= k < words(cmdline).len(),
        forall|m: int|
            1 <= m < k ==> (#[trigger] words(cmdline)[m]).len() > 0 && words(cmdline)[m][0] == '-'
                || !contains_seq(words(cmdline)[m], "/"@),
        !(words(cmdline)[k].len() > 0 && words(cmdline)[k][0] == '-'),
        contains_seq(words(cmdline)[k], "/"@),
        parent_dir_name(words(cmdline)[k]) matches Some(dir) && contains_seq(
            lowercase(dir),
            "electron"@,
        ),
        path_file_stem(words(cmdline)[k]) matches Some(stem) && !contains_seq(
            lowercase(stem),
            "electron"@,
        ),
    ensures
        app_name_spec(cmdline, name) == capitalize_spec(path_file_stem(words(cmdline)[k]).unwrap()),
{
    let parts = words(cmdline);
    lemma_app_name_skips(parts, 1, k);
}

/// Sorted by the PID column (or the State column), rows that tie on the
/// search are ordered by pid (or by state character) in the sort
/// direction.
pub proof fn law_pid_and_state_columns_sort_by_value(d: ProcessTableDelegate, i: int, j: int)
    requires
        0 <= i < d.processes@.len(),
        0 <= j < d.processes@.len(),
        same_search_score(d, i, j),
    ensures
        d.view_state.sort_col == 2 && d.view_state.sort_dir == SortDirection::Ascending
            && d.processes@[i].pid < d.processes@[j].pid ==> d.before(i, j),
        d.view_state.sort_col == 2 && d.view_state.sort_dir == SortDirection::Descending
            && d.processes@[i].pid > d.processes@[j].pid ==> d.before(i, j),
        d.view_state.sort_col == 4 && d.view_state.sort_dir == SortDirection::Ascending && (
        d.processes@[i].state as int) < (d.processes@[j].state as int) ==> d.before(i, j),
        d.view_state.sort_col == 4 && d.view_state.sort_dir == SortDirection::Descending && (
        d.processes@[i].state as int) > (d.processes@[j].state as int) ==> d.before(i, j),
{
}

/// Each of the simple filters keeps exactly the processes with its mark:
/// GUI apps, the current user's non-GUI processes, kernel threads,
/// parents, Electron processes, a state, a user name.
pub proof fn law_simple_filters(d: ProcessTableDelegate, p: ProcessInfo, c: char, u: String)
    ensures
        d.matches_spec(p, Filter::Gui) == p.is_gui,
        d.matches_spec(p, Filter::User) == (p.is_owned_by_current_user && !p.is_gui),
        d.matches_spec(p, Filter::Kernel) == p.is_kthread,
        d.matches_spec(p, Filter::Parent) == p.has_children,
        d.matches_spec(p, Filter::Electron) == p.is_electron,
        d.matches_spec(p, Filter::ProcessState(c)) == (p.state == c),
        d.matches_spec(p, Filter::Username(u)) == (p.user@ == u@),
        d.matches_spec(p, Filter::Gui) ==> !d.matches_spec(p, Filter::User),
{
}

/// With no filters every process passes them; with a single filter, in
/// either mode, a process passes exactly when it meets that filter.
pub proof fn law_filter_modes(d: ProcessTableDelegate, p: ProcessInfo)
    ensures
        d.view_state.filters@.len() == 0 ==> d.filters_match(p),
        d.view_state.filters@.len() == 1 ==> (d.filters_match(p) == d.matches_spec(
            p,
            d.view_state.filters@[0],
        )),
        d.view_state.filter_mode == FilterMode::And ==> (d.filters_match(p) <==> forall|k: int|
            0 <= k < d.view_state.filters@.len() ==> d.matches_spec(p, #[trigger] d.view_state.filters@[k])),
        d.view_state.filter_mode == FilterMode::Or && d.view_state.filters@.len() > 0 ==> (
        d.filters_match(p) <==> exists|k: int|
            0 <= k < d.view_state.filters@.len() && d.matches_spec(p, #[trigger] d.view_state.filters@[k])),
{
    if d.view_state.filters@.len() == 1 {
        if d.matches_spec(p, d.view_state.filters@[0]) {
            assert(d.matches_spec(p, d.view_state.filters@[0]));
        }
    }
}

/// Outside systemd: under OpenRC a child of process 1 or of a
/// `supervise-daemon` is a service; under runit a child of a `runsv`;
/// under any other init system a child of process 1.
pub proof fn law_services_outside_systemd(p: ProcessInfo, runsv: Set<i32>, supervise: Set<i32>)
    ensures
        is_service_spec(p, InitSystem::OpenRc, runsv, supervise) == (p.ppid == 1
            || supervise.contains(p.ppid)),
        is_service_spec(p, InitSystem::Runit, runsv, supervise) == runsv.contains(p.ppid),
        is_service_spec(p, InitSystem::Dinit, runsv, supervise) == (p.ppid == 1),
        is_service_spec(p, InitSystem::SysV, runsv, supervise) == (p.ppid == 1),
        is_service_spec(p, InitSystem::Unknown, runsv, supervise) == (p.ppid == 1),
        p.cgroup@.len() == 0 ==> is_service_spec(p, InitSystem::Systemd, runsv, supervise) == (
        p.ppid == 1),
{
}

} // verus!
