//! Sort keys of table rows and the order they define.

use vstd::arithmetic::div_mod::lemma_fundamental_div_mod;
use vstd::arithmetic::power2::{lemma2_to64, pow2};
use vstd::prelude::*;

verus! {

/// The outcome of comparing two values.
#[derive(Debug, Clone, Copy, PartialEq, Eq, Structural)]
pub enum Order {
    Less,
    Equal,
    Greater,
}

/// The opposite outcome.
pub open spec fn flip(o: Order) -> Order {
    match o {
        Order::Less => Order::Greater,
        Order::Equal => Order::Equal,
        Order::Greater => Order::Less,
    }
}

/// Compares integers.
pub open spec fn num_order(a: int, b: int) -> Order {
    if a < b {
        Order::Less
    } else if a > b {
        Order::Greater
    } else {
        Order::Equal
    }
}

/// Compares texts lexicographically by code point, as `str`'s `Ord` does
/// (byte order of UTF-8 is code-point order).
pub open spec fn text_order(a: Seq<char>, b: Seq<char>) -> Order
    decreases a.len(),
{
    if a.len() == 0 {
        if b.len() == 0 {
            Order::Equal
        } else {
            Order::Less
        }
    } else if b.len() == 0 {
        Order::Greater
    } else if a[0] < b[0] {
        Order::Less
    } else if a[0] > b[0] {
        Order::Greater
    } else {
        text_order(a.drop_first(), b.drop_first())
    }
}

pub proof fn lemma_text_order_equal(a: Seq<char>, b: Seq<char>)
    ensures
        (text_order(a, b) == Order::Equal) == (a == b),
        text_order(b, a) == flip(text_order(a, b)),
    decreases a.len(),
{
    if a.len() > 0 && b.len() > 0 && a[0] == b[0] {
        lemma_text_order_equal(a.drop_first(), b.drop_first());
        if a.drop_first() == b.drop_first() {
            assert(a =~= seq![a[0]] + a.drop_first());
            assert(b =~= seq![b[0]] + b.drop_first());
        }
    }
    if a.len() > 0 && b.len() > 0 && a == b {
        assert(a[0] == b[0]);
    }
    if a.len() == 0 && b.len() == 0 {
        assert(a =~= b);
    }
}

pub proof fn lemma_text_order_trans(a: Seq<char>, b: Seq<char>, c: Seq<char>)
    requires
        text_order(a, b) == Order::Less,
        text_order(b, c) == Order::Less,
    ensures
        text_order(a, c) == Order::Less,
    decreases a.len(),
{
    if a.len() > 0 && b.len() > 0 && c.len() > 0 && a[0] == b[0] && b[0] == c[0] {
        lemma_text_order_trans(a.drop_first(), b.drop_first(), c.drop_first());
    }
}

/// The sort key of a table row: a search score (higher first), then a
/// number and a text compared in the column's direction.
pub struct RowKey {
    pub score: u32,
    pub num: i128,
    pub text: Vec<char>,
}

/// What a row key stands for.
pub struct KeyView {
    pub score: int,
    pub num: int,
    pub text: Seq<char>,
}

impl View for RowKey {
    type V = KeyView;

    open spec fn view(&self) -> KeyView {
        KeyView { score: self.score as int, num: self.num as int, text: self.text@ }
    }
}

/// Compares the number, then the text.
pub open spec fn column_order(a: KeyView, b: KeyView) -> Order {
    let n = num_order(a.num, b.num);
    if n == Order::Equal {
        text_order(a.text, b.text)
    } else {
        n
    }
}

/// Compares row keys: the higher score first, then the column value
/// ascending, or descending where `desc`.
pub open spec fn key_order(a: KeyView, b: KeyView, desc: bool) -> Order {
    if a.score > b.score {
        Order::Less
    } else if a.score < b.score {
        Order::Greater
    } else if desc {
        flip(column_order(a, b))
    } else {
        column_order(a, b)
    }
}

/// Row `a` (at index `ia`) comes before row `b` (at index `ib`): its key is
/// smaller, or the keys are equal and it came first.
pub open spec fn key_before(a: KeyView, ia: int, b: KeyView, ib: int, desc: bool) -> bool {
    key_order(a, b, desc) == Order::Less || (key_order(a, b, desc) == Order::Equal && ia < ib)
}

pub proof fn lemma_key_order_props(a: KeyView, b: KeyView, c: KeyView, desc: bool)
    ensures
        key_order(a, a, desc) == Order::Equal,
        key_order(b, a, desc) == flip(key_order(a, b, desc)),
        key_order(a, b, desc) != Order::Greater && key_order(b, c, desc) != Order::Greater
            ==> key_order(a, c, desc) != Order::Greater,
        key_order(a, b, desc) == Order::Less && key_order(b, c, desc) != Order::Greater
            ==> key_order(a, c, desc) == Order::Less,
        key_order(a, b, desc) != Order::Greater && key_order(b, c, desc) == Order::Less
            ==> key_order(a, c, desc) == Order::Less,
{
    lemma_text_order_equal(a.text, a.text);
    lemma_text_order_equal(a.text, b.text);
    lemma_text_order_equal(b.text, c.text);
    lemma_text_order_equal(a.text, c.text);
    if text_order(a.text, b.text) == Order::Less && text_order(b.text, c.text) == Order::Less {
        lemma_text_order_trans(a.text, b.text, c.text);
    }
    if text_order(c.text, b.text) == Order::Less && text_order(b.text, a.text) == Order::Less {
        lemma_text_order_trans(c.text, b.text, a.text);
    }
}

/// `key_before` is a strict total order on rows with distinct indices.
pub proof fn lemma_key_before_order(
    a: KeyView,
    ia: int,
    b: KeyView,
    ib: int,
    c: KeyView,
    ic: int,
    desc: bool,
)
    ensures
        !key_before(a, ia, a, ia, desc),
        ia != ib ==> (key_before(a, ia, b, ib, desc) || key_before(b, ib, a, ia, desc)),
        key_before(a, ia, b, ib, desc) ==> !key_before(b, ib, a, ia, desc),
        key_before(a, ia, b, ib, desc) && key_before(b, ib, c, ic, desc) ==> key_before(
            a,
            ia,
            c,
            ic,
            desc,
        ),
{
    lemma_key_order_props(a, b, c, desc);
    lemma_key_order_props(b, a, c, desc);
}

/// Compares texts lexicographically.
pub fn compare_text(a: &Vec<char>, b: &Vec<char>) -> (r: Order)
    ensures
        r == text_order(a@, b@),
{
    let mut i: usize = 0;
    assert(a@.skip(0) =~= a@);
    assert(b@.skip(0) =~= b@);
    while i < a.len() && i < b.len()
        invariant
            i <= a@.len(),
            i <= b@.len(),
            text_order(a@, b@) == text_order(a@.skip(i as int), b@.skip(i as int)),
        decreases a@.len() - i,
    {
        let x = a[i];
        let y = b[i];
        if x < y {
            return Order::Less;
        }
        if x > y {
            return Order::Greater;
        }
        assert(a@.skip(i as int).drop_first() =~= a@.skip(i + 1));
        assert(b@.skip(i as int).drop_first() =~= b@.skip(i + 1));
        i = i + 1;
    }
    if i < a.len() {
        Order::Greater
    } else if i < b.len() {
        Order::Less
    } else {
        Order::Equal
    }
}

/// Compares row keys (see `key_order`).
pub fn compare_keys(a: &RowKey, b: &RowKey, desc: bool) -> (r: Order)
    ensures
        r == key_order(a@, b@, desc),
{
    if a.score > b.score {
        return Order::Less;
    }
    if a.score < b.score {
        return Order::Greater;
    }
    let c = if a.num < b.num {
        Order::Less
    } else if a.num > b.num {
        Order::Greater
    } else {
        compare_text(&a.text, &b.text)
    };
    if desc {
        match c {
            Order::Less => Order::Greater,
            Order::Equal => Order::Equal,
            Order::Greater => Order::Less,
        }
    } else {
        c
    }
}

// ---------------------------------------------------------------------
// Byte counts as 32-bit floats
// ---------------------------------------------------------------------
/// The number of binary digits of `v` (0 for 0).
pub open spec fn bit_len(v: nat) -> nat
    decreases v,
{
    if v == 0 {
        0
    } else {
        1 + bit_len(v / 2)
    }
}

/// The value that `v as f32` takes: `v` rounded to 24 significant bits,
/// to nearest with ties to even.
pub open spec fn f32_value(v: nat) -> nat {
    let s: nat = if bit_len(v) > 24 {
        (bit_len(v) - 24) as nat
    } else {
        0
    };
    let unit = pow2(s);
    let q = v / unit;
    let r = v % unit;
    let up = r * 2 > unit || (r * 2 == unit && q % 2 == 1);
    (if up {
        q + 1
    } else {
        q
    }) * unit
}

proof fn lemma_bit_len_bound(v: nat, k: nat)
    requires
        v < pow2(k),
    ensures
        bit_len(v) <= k,
    decreases k,
{
    if v > 0 {
        if k == 0 {
            vstd::arithmetic::power2::lemma2_to64();
        } else {
            vstd::arithmetic::power2::lemma_pow2_unfold(k);
            lemma_bit_len_bound(v / 2, (k - 1) as nat);
        }
    }
}

/// The number of binary digits of `v`.
fn bit_length(v: u64) -> (r: u32)
    ensures
        r as nat == bit_len(v as nat),
        r <= 64,
{
    let mut x = v;
    let mut n: u32 = 0;
    proof {
        lemma2_to64();
        lemma_bit_len_bound(v as nat, 64);
    }
    while x > 0
        invariant
            n as nat + bit_len(x as nat) == bit_len(v as nat),
            bit_len(v as nat) <= 64,
        decreases x,
    {
        x = x / 2;
        n = n + 1;
    }
    n
}

/// `2^s`.
fn power_of_two(s: u32) -> (r: u64)
    requires
        s < 64,
    ensures
        r as nat == pow2(s as nat),
{
    let mut r: u64 = 1;
    let mut i: u32 = 0;
    proof {
        lemma2_to64();
    }
    while i < s
        invariant
            i <= s,
            s < 64,
            r as nat == pow2(i as nat),
        decreases s - i,
    {
        proof {
            lemma2_to64();
            vstd::arithmetic::power2::lemma_pow2_unfold((i + 1) as nat);
            vstd::arithmetic::power2::lemma_pow2_strictly_increases((i + 1) as nat, 64);
        }
        r = r * 2;
        i = i + 1;
    }
    r
}

/// The value of `v as f32`, as an integer.
pub fn f32_value_of(v: u64) -> (r: u128)
    ensures
        r as nat == f32_value(v as nat),
        r <= 0x2_0000_0000_0000_0000,
{
    let len = bit_length(v);
    let s: u32 = if len > 24 {
        len - 24
    } else {
        0
    };
    let unit = power_of_two(s);
    proof {
        vstd::arithmetic::power2::lemma_pow2_pos(s as nat);
    }
    let q = v / unit;
    let r = v % unit;
    let up = r as u128 * 2 > unit as u128 || (r as u128 * 2 == unit as u128 && q % 2 == 1);
    let qq: u128 = if up {
        q as u128 + 1
    } else {
        q as u128
    };
    proof {
        lemma_fundamental_div_mod(v as int, unit as int);
        assert(q * unit <= v) by (nonlinear_arith)
            requires
                v == unit * q + r,
                r >= 0,
        ;
        assert(qq * unit <= q * unit + unit) by (nonlinear_arith)
            requires
                qq <= q + 1,
                unit > 0,
        ;
        assert(unit <= u64::MAX);
    }
    qq * unit as u128
}

} // verus!
