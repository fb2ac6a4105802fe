//! Theme families: the themes that share a name up to their last word
//! ("Ayu Dark" and "Ayu Light" are the family "Ayu").

use crate::data::processes::rank::{
    compare_text, flip, lemma_text_order_equal, lemma_text_order_trans, text_order, Order,
};
use crate::text::{chars_eq, chars_of, rfind, rfind_char, string_of, subvec};
use vstd::prelude::*;

verus! {

/// The family of a theme name: everything before its last space, or the
/// whole name where it has none (`str::rsplit_once(' ')`).
pub open spec fn family_spec(name: Seq<char>) -> Seq<char> {
    match rfind(name, ' ') {
        Some(k) => name.subrange(0, k),
        None => name,
    }
}

/// The family of a theme name (see `family_spec`).
pub fn theme_family_of(name: &str) -> (r: String)
    ensures
        r@ == family_spec(name@),
{
    let v = chars_of(name);
    match rfind_char(&v, ' ') {
        Some(k) => string_of(&subvec(&v, 0, k)),
        None => string_of(&v),
    }
}

/// Theme `k` is a sibling of `name` in the wanted mode: another theme of
/// the same family, dark exactly when `want_dark`.
pub open spec fn is_sibling(themes: Seq<(String, bool)>, k: int, name: Seq<char>, want_dark: bool) -> bool {
    &&& 0 <= k < themes.len()
    &&& family_spec(themes[k].0@) == family_spec(name)
    &&& themes[k].0@ != name
    &&& themes[k].1 == want_dark
}

/// A sibling of the theme `name` in the other mode, among the registered
/// themes given as (name, dark) pairs; `None` where there is none.
pub fn find_sibling(themes: &Vec<(String, bool)>, name: &str, want_dark: bool) -> (r: Option<usize>)
    ensures
        r matches Some(k) ==> is_sibling(themes@, k as int, name@, want_dark),
        r is None ==> forall|k: int| !is_sibling(themes@, k, name@, want_dark),
{
    let family = chars_of(theme_family_of(name).as_str());
    let own = chars_of(name);
    let mut i: usize = 0;
    while i < themes.len()
        invariant
            i <= themes@.len(),
            family@ == family_spec(name@),
            own@ == name@,
            forall|k: int| 0 <= k < i ==> !is_sibling(themes@, k, name@, want_dark),
        decreases themes@.len() - i,
    {
        let cand = chars_of(themes[i].0.as_str());
        let cf = chars_of(theme_family_of(themes[i].0.as_str()).as_str());
        if chars_eq(&cf, &family) && !chars_eq(&cand, &own) && themes[i].1 == want_dark {
            return Some(i);
        }
        i = i + 1;
    }
    None
}

/// The indices, in order, of the themes among the first `n` whose family is
/// `fam`.
pub open spec fn members_upto(themes: Seq<(String, bool)>, fam: Seq<char>, n: int) -> Seq<int>
    decreases n,
{
    if n <= 0 {
        seq![]
    } else if family_spec(themes[n - 1].0@) == fam {
        members_upto(themes, fam, n - 1).push(n - 1)
    } else {
        members_upto(themes, fam, n - 1)
    }
}

/// Some group is named `f`.
pub open spec fn has_group(r: Seq<(String, Vec<usize>)>, f: Seq<char>) -> bool {
    exists|g: int| 0 <= g < r.len() && (#[trigger] r[g]).0@ == f
}

/// Indices as integers.
pub open spec fn index_ints(v: Seq<usize>) -> Seq<int> {
    v.map_values(|k: usize| k as int)
}

proof fn lemma_members_absent(themes: Seq<(String, bool)>, fam: Seq<char>, n: int)
    requires
        forall|k: int| 0 <= k < n ==> family_spec(#[trigger] themes[k].0@) != fam,
    ensures
        members_upto(themes, fam, n) == Seq::<int>::empty(),
    decreases n,
{
    if n > 0 {
        lemma_members_absent(themes, fam, n - 1);
    }
}

/// The theme families of the registered themes given as (name, dark)
/// pairs: one group per family, ordered by family name, each holding the
/// indices of its themes in their order.
pub fn list_theme_families(themes: &Vec<(String, bool)>) -> (r: Vec<(String, Vec<usize>)>)
    ensures
        forall|a: int, b: int|
            0 <= a < b < r@.len() ==> text_order(r@[a].0@, r@[b].0@) == Order::Less,
        forall|g: int|
            0 <= g < r@.len() ==> index_ints(#[trigger] r@[g].1@) == members_upto(
                themes@,
                r@[g].0@,
                themes@.len() as int,
            ) && r@[g].1@.len() > 0,
        forall|k: int|
            0 <= k < themes@.len() ==> has_group(r@, family_spec(#[trigger] themes@[k].0@)),
{
    let mut r: Vec<(String, Vec<usize>)> = Vec::new();
    let mut i: usize = 0;
    while i < themes.len()
        invariant
            i <= themes@.len(),
            forall|a: int, b: int|
                0 <= a < b < r@.len() ==> text_order(r@[a].0@, r@[b].0@) == Order::Less,
            forall|g: int|
                0 <= g < r@.len() ==> index_ints(#[trigger] r@[g].1@) == members_upto(
                    themes@,
                    r@[g].0@,
                    i as int,
                ) && r@[g].1@.len() > 0,
            forall|k: int| 0 <= k < i ==> has_group(r@, family_spec(#[trigger] themes@[k].0@)),
        decreases themes@.len() - i,
    {
        let fam_s = theme_family_of(themes[i].0.as_str());
        let f = chars_of(fam_s.as_str());
        let ghost fv = f@;
        let ghost old_r = r@;
        // the group of `f`, or where it belongs
        let mut q: usize = 0;
        let mut found = false;
        while q < r.len()
            invariant_except_break
                !found,
            invariant
                q <= r@.len(),
                r@ == old_r,
                f@ == fv,
                forall|a: int| 0 <= a < q ==> text_order(fv, #[trigger] r@[a].0@) == Order::Greater,
            ensures
                q <= r@.len(),
                r@ == old_r,
                forall|a: int| 0 <= a < q ==> text_order(fv, #[trigger] r@[a].0@) == Order::Greater,
                found ==> q < r@.len() && text_order(fv, r@[q as int].0@) == Order::Equal,
                !found ==> q == r@.len() || text_order(fv, r@[q as int].0@) == Order::Less,
            decreases r@.len() - q,
        {
            let o = compare_text(&f, &chars_of(r[q].0.as_str()));
            if o == Order::Equal {
                found = true;
                break;
            }
            if o == Order::Less {
                break;
            }
            q = q + 1;
        }
        proof {
            assert forall|a: int| 0 <= a < old_r.len() implies (#[trigger] old_r[a].0@ == fv) == (found && a == q) by {
                lemma_text_order_equal(fv, old_r[a].0@);
                if found && a != q {
                    lemma_text_order_equal(fv, old_r[q as int].0@);
                    if a < q {
                    } else {
                        lemma_text_order_equal(old_r[q as int].0@, old_r[a].0@);
                    }
                }
                if !found && a >= q {
                    if q < old_r.len() && a > q {
                        lemma_text_order_trans(fv, old_r[q as int].0@, old_r[a].0@);
                    }
                }
            }
        }
        if found {
            let (name, mut idx) = r.remove(q);
            idx.push(i);
            r.insert(q, (name, idx));
            proof {
                assert forall|g: int| 0 <= g < r@.len() implies index_ints(#[trigger] r@[g].1@)
                    == members_upto(themes@, r@[g].0@, i + 1) && r@[g].1@.len() > 0 by {
                    assert(r@[g].0@ == old_r[g].0@);
                    if g == q {
                        assert(index_ints(r@[g].1@) =~= index_ints(old_r[g].1@).push(i as int));
                    } else {
                        assert(r@[g] == old_r[g]);
                    }
                }
                assert forall|a: int, b: int| 0 <= a < b < r@.len() implies text_order(
                    r@[a].0@,
                    r@[b].0@,
                ) == Order::Less by {
                    assert(r@[a].0@ == old_r[a].0@ && r@[b].0@ == old_r[b].0@);
                }
                assert forall|k: int| 0 <= k < i + 1 implies has_group(
                    r@,
                    family_spec(#[trigger] themes@[k].0@),
                ) by {
                    if k == i {
                        assert(r@[q as int].0@ == fv);
                    } else {
                        let g = choose|g: int|
                            0 <= g < old_r.len() && (#[trigger] old_r[g]).0@ == family_spec(
                                themes@[k].0@,
                            );
                        assert(r@[g].0@ == old_r[g].0@);
                    }
                }
            }
        } else {
            proof {
                assert forall|k: int| 0 <= k < i implies family_spec(#[trigger] themes@[k].0@)
                    != fv by {
                    let g = choose|g: int|
                        0 <= g < old_r.len() && (#[trigger] old_r[g]).0@ == family_spec(
                            themes@[k].0@,
                        );
                }
                lemma_members_absent(themes@, fv, i as int);
            }
            let mut idx: Vec<usize> = Vec::new();
            idx.push(i);
            r.insert(q, (fam_s, idx));
            proof {
                assert forall|g: int| 0 <= g < r@.len() implies index_ints(#[trigger] r@[g].1@)
                    == members_upto(themes@, r@[g].0@, i + 1) && r@[g].1@.len() > 0 by {
                    if g == q {
                        assert(index_ints(r@[g].1@) =~= seq![i as int]);
                        assert(members_upto(themes@, fv, i as int) =~= Seq::<int>::empty());
                    } else if g < q {
                        assert(r@[g] == old_r[g]);
                    } else {
                        assert(r@[g] == old_r[g - 1]);
                    }
                }
                assert forall|a: int, b: int| 0 <= a < b < r@.len() implies text_order(
                    r@[a].0@,
                    r@[b].0@,
                ) == Order::Less by {
                    if a < q && b < q {
                        assert(r@[a] == old_r[a] && r@[b] == old_r[b]);
                    } else if a < q && b == q {
                        assert(r@[a] == old_r[a]);
                        lemma_text_order_equal(fv, old_r[a].0@);
                    } else if a < q && b > q {
                        assert(r@[a] == old_r[a] && r@[b] == old_r[b - 1]);
                    } else if a == q {
                        assert(r@[b] == old_r[b - 1]);
                        if b - 1 > q {
                            lemma_text_order_trans(fv, old_r[q as int].0@, old_r[b - 1].0@);
                        }
                    } else {
                        assert(r@[a] == old_r[a - 1] && r@[b] == old_r[b - 1]);
                    }
                }
                assert forall|k: int| 0 <= k < i + 1 implies has_group(
                    r@,
                    family_spec(#[trigger] themes@[k].0@),
                ) by {
                    if k == i {
                        assert(r@[q as int].0@ == fv);
                    } else {
                        let g = choose|g: int|
                            0 <= g < old_r.len() && (#[trigger] old_r[g]).0@ == family_spec(
                                themes@[k].0@,
                            );
                        if g < q {
                            assert(r@[g] == old_r[g]);
                        } else {
                            assert(r@[g + 1] == old_r[g]);
                        }
                    }
                }
            }
        }
        i = i + 1;
    }
    r
}

/// The first registered theme named `name`.
pub open spec fn theme_index(themes: Seq<(String, bool)>, name: Seq<char>, i: int) -> Option<int>
    decreases themes.len() - i,
{
    if i < 0 || i >= themes.len() {
        None
    } else if themes[i].0@ == name {
        Some(i)
    } else {
        theme_index(themes, name, i + 1)
    }
}

/// Finds the first registered theme named `name`.
pub fn find_theme(themes: &Vec<(String, bool)>, name: &str) -> (r: Option<usize>)
    ensures
        match r {
            Some(k) => theme_index(themes@, name@, 0) == Some(k as int) && k < themes@.len(),
            None => theme_index(themes@, name@, 0) is None,
        },
{
    let n = chars_of(name);
    let mut i: usize = 0;
    while i < themes.len()
        invariant
            i <= themes@.len(),
            n@ == name@,
            theme_index(themes@, name@, 0) == theme_index(themes@, name@, i as int),
        decreases themes@.len() - i,
    {
        if chars_eq(&chars_of(themes[i].0.as_str()), &n) {
            return Some(i);
        }
        i = i + 1;
    }
    None
}

/// What applying a theme by name changes: the theme to put in the dark
/// slot and in the light slot (`None`: keep the current one), and whether
/// the interface then shows the dark slot.
#[derive(Debug, Clone, Copy, PartialEq, Eq, Structural)]
pub struct ThemeChoice {
    pub dark: Option<usize>,
    pub light: Option<usize>,
    pub dark_mode: bool,
}

/// The choice for the theme `name`: a registered theme goes to the slot of
/// its mode, a sibling of the other mode (if any) to the other slot, and
/// its mode is shown; an unknown name puts `Default Dark` (if registered)
/// in the dark slot and shows the dark mode.
pub fn theme_choice(themes: &Vec<(String, bool)>, name: &str) -> (r: ThemeChoice)
    ensures
        match theme_index(themes@, name@, 0) {
            Some(k) => {
                &&& r.dark_mode == themes@[k].1
                &&& (if themes@[k].1 {
                    r.dark == Some(k as usize) && match r.light {
                        Some(s) => is_sibling(themes@, s as int, name@, false),
                        None => forall|s: int| !is_sibling(themes@, s, name@, false),
                    }
                } else {
                    r.light == Some(k as usize) && match r.dark {
                        Some(s) => is_sibling(themes@, s as int, name@, true),
                        None => forall|s: int| !is_sibling(themes@, s, name@, true),
                    }
                })
            },
            None => {
                &&& r.dark_mode
                &&& r.light is None
                &&& match theme_index(themes@, "Default Dark"@, 0) {
                    Some(f) => r.dark == Some(f as usize),
                    None => r.dark is None,
                }
            },
        },
{
    match find_theme(themes, name) {
        Some(k) => {
            let dark = themes[k].1;
            let sibling = find_sibling(themes, name, !dark);
            if dark {
                ThemeChoice { dark: Some(k), light: sibling, dark_mode: true }
            } else {
                ThemeChoice { dark: sibling, light: Some(k), dark_mode: false }
            }
        },
        None => ThemeChoice { dark: find_theme(themes, "Default Dark"), light: None, dark_mode: true },
    }
}

} // verus!
