//! Character-level text utilities with exact specifications.
//!
//! Text is handled as sequences of `char`. The specifications here follow
//! the documented behaviour of the corresponding `str` operations
//! (`trim`, `lines`, `split_whitespace`, `split_once`, integer `parse`,
//! decimal `to_string`), stated over `Seq<char>`.

use vstd::prelude::*;

verus! {

/// Unicode `White_Space` property, as used by `char::is_whitespace`.
pub open spec fn is_ws(c: char) -> bool {
    let u = c as u32;
    ||| 9 <= u <= 13
    ||| u == 32
    ||| u == 0x85
    ||| u == 0xA0
    ||| u == 0x1680
    ||| 0x2000 <= u <= 0x200A
    ||| u == 0x2028
    ||| u == 0x2029
    ||| u == 0x202F
    ||| u == 0x205F
    ||| u == 0x3000
}

/// Decides `is_ws`.
pub fn is_whitespace_char(c: char) -> (r: bool)
    ensures
        r == is_ws(c),
{
    let u = c as u32;
    (9 <= u && u <= 13) || u == 32 || u == 0x85 || u == 0xA0 || u == 0x1680 || (0x2000 <= u && u
        <= 0x200A) || u == 0x2028 || u == 0x2029 || u == 0x202F || u == 0x205F || u == 0x3000
}

/// ASCII decimal digit.
pub open spec fn is_digit(c: char) -> bool {
    '0' <= c <= '9'
}

pub open spec fn digit_value(c: char) -> nat {
    ((c as u32) - ('0' as u32)) as nat
}

pub open spec fn digit_char(d: nat) -> char {
    ((d + ('0' as u32)) as u32) as char
}

// ---------------------------------------------------------------------
// Searching
// ---------------------------------------------------------------------
/// Index of the first occurrence of `c` at or after `i`.
pub open spec fn find_from(s: Seq<char>, c: char, i: int) -> Option<int>
    decreases s.len() - i,
{
    if i < 0 || i >= s.len() {
        None
    } else if s[i] == c {
        Some(i)
    } else {
        find_from(s, c, i + 1)
    }
}

/// Index of the first occurrence of `c`.
pub open spec fn find(s: Seq<char>, c: char) -> Option<int> {
    find_from(s, c, 0)
}

/// Index of the last occurrence of `c` before `j`.
pub open spec fn rfind_before(s: Seq<char>, c: char, j: int) -> Option<int>
    decreases j,
{
    if j <= 0 || j > s.len() {
        None
    } else if s[j - 1] == c {
        Some(j - 1)
    } else {
        rfind_before(s, c, j - 1)
    }
}

pub open spec fn rfind(s: Seq<char>, c: char) -> Option<int> {
    rfind_before(s, c, s.len() as int)
}

pub proof fn lemma_find_from_bounds(s: Seq<char>, c: char, i: int)
    requires
        0 <= i,
    ensures
        find_from(s, c, i) matches Some(k) ==> i <= k < s.len() && s[k] == c && forall|j: int|
            i <= j < k ==> s[j] != c,
        find_from(s, c, i) is None ==> forall|j: int| i <= j < s.len() ==> s[j] != c,
    decreases s.len() - i,
{
    if i >= 0 && i < s.len() && s[i] != c {
        lemma_find_from_bounds(s, c, i + 1);
    }
}

pub proof fn lemma_rfind_bounds(s: Seq<char>, c: char, j: int)
    requires
        0 <= j <= s.len(),
    ensures
        rfind_before(s, c, j) matches Some(k) ==> 0 <= k < j && s[k] == c && forall|m: int|
            k < m < j ==> s[m] != c,
        rfind_before(s, c, j) is None ==> forall|m: int| 0 <= m < j ==> s[m] != c,
    decreases j,
{
    if j > 0 && s[j - 1] != c {
        lemma_rfind_bounds(s, c, j - 1);
    }
}

/// First occurrence of `c` in `v` at or after `start`.
pub fn find_char_from(v: &Vec<char>, c: char, start: usize) -> (r: Option<usize>)
    ensures
        r matches Some(k) ==> find_from(v@, c, start as int) == Some(k as int),
        r is None ==> find_from(v@, c, start as int) is None,
{
    let mut i = start;
    while i < v.len()
        invariant
            start <= i,
            find_from(v@, c, start as int) == find_from(v@, c, i as int),
        decreases v.len() - i,
    {
        if v[i] == c {
            return Some(i);
        }
        i = i + 1;
    }
    None
}

/// Last occurrence of `c` in `v`.
pub fn rfind_char(v: &Vec<char>, c: char) -> (r: Option<usize>)
    ensures
        r matches Some(k) ==> rfind(v@, c) == Some(k as int) && k < v@.len() && v@[k as int] == c,
        r is None ==> rfind(v@, c) is None,
{
    proof {
        lemma_rfind_bounds(v@, c, v@.len() as int);
    }
    let mut j = v.len();
    while j > 0
        invariant
            j <= v.len(),
            rfind(v@, c) == rfind_before(v@, c, j as int),
        decreases j,
    {
        if v[j - 1] == c {
            return Some(j - 1);
        }
        j = j - 1;
    }
    None
}

/// `t` occurs in `s` at position `i`.
pub open spec fn occurs_at(s: Seq<char>, t: Seq<char>, i: int) -> bool {
    0 <= i && i + t.len() <= s.len() && s.subrange(i, i + t.len()) == t
}

/// `t` is a contiguous piece of `s` (`str::contains`).
pub open spec fn contains_seq(s: Seq<char>, t: Seq<char>) -> bool {
    exists|i: int| occurs_at(s, t, i)
}

pub open spec fn starts_with(s: Seq<char>, t: Seq<char>) -> bool {
    t.len() <= s.len() && s.subrange(0, t.len() as int) == t
}

pub open spec fn ends_with(s: Seq<char>, t: Seq<char>) -> bool {
    t.len() <= s.len() && s.subrange(s.len() - t.len(), s.len() as int) == t
}

/// Decides whether `t` occurs in `s` at position `i`.
pub fn occurs_at_exec(s: &Vec<char>, t: &Vec<char>, i: usize) -> (r: bool)
    ensures
        r == occurs_at(s@, t@, i as int),
{
    if i > s.len() || t.len() > s.len() - i {
        return false;
    }
    let mut k: usize = 0;
    while k < t.len()
        invariant
            i + t.len() <= s.len(),
            k <= t.len(),
            forall|m: int| 0 <= m < k ==> s@[i + m] == t@[m],
        decreases t.len() - k,
    {
        if s[i + k] != t[k] {
            assert(s@.subrange(i as int, i + t.len())[k as int] != t@[k as int]);
            return false;
        }
        k = k + 1;
    }
    assert(s@.subrange(i as int, i + t.len()) =~= t@);
    true
}

/// `str::contains` on character sequences.
pub fn contains_chars(s: &Vec<char>, t: &Vec<char>) -> (r: bool)
    ensures
        r == contains_seq(s@, t@),
{
    if t.len() > s.len() {
        assert forall|i: int| !occurs_at(s@, t@, i) by {}
        return false;
    }
    let n = s.len() - t.len();
    let mut i: usize = 0;
    while i < n
        invariant
            t.len() <= s.len(),
            n == s.len() - t.len(),
            i <= n,
            forall|j: int| 0 <= j < i ==> !occurs_at(s@, t@, j),
        decreases n - i,
    {
        if occurs_at_exec(s, t, i) {
            return true;
        }
        i = i + 1;
    }
    if occurs_at_exec(s, t, n) {
        return true;
    }
    assert forall|j: int| !occurs_at(s@, t@, j) by {
        if 0 <= j && j < i {
        }
    }
    false
}

pub fn starts_with_chars(s: &Vec<char>, t: &Vec<char>) -> (r: bool)
    ensures
        r == starts_with(s@, t@),
{
    occurs_at_exec(s, t, 0)
}

pub fn ends_with_chars(s: &Vec<char>, t: &Vec<char>) -> (r: bool)
    ensures
        r == ends_with(s@, t@),
{
    if t.len() > s.len() {
        false
    } else {
        occurs_at_exec(s, t, s.len() - t.len())
    }
}

/// Sequence equality, decided.
pub fn chars_eq(a: &Vec<char>, b: &Vec<char>) -> (r: bool)
    ensures
        r == (a@ == b@),
{
    if a.len() != b.len() {
        return false;
    }
    let r = occurs_at_exec(a, b, 0);
    proof {
        assert(a@.subrange(0, a@.len() as int) =~= a@);
    }
    r
}

// ---------------------------------------------------------------------
// Conversions between `str`, `String` and `Vec<char>`
// ---------------------------------------------------------------------
/// Copies the characters of a string slice into a vector.
pub fn chars_of(s: &str) -> (res: Vec<char>)
    ensures
        res@ == s@,
{
    let mut res: Vec<char> = Vec::new();
    for c in it: s.chars()
        invariant
            res@ == it.seq().take(it.index() as int),
            it.seq() == s@,
    {
        res.push(c);
    }
    res
}

/// Collects characters into a `String` (`FromIterator<char>` for `String`).
#[verifier::external_body]
pub(crate) fn string_of(v: &Vec<char>) -> (res: String)
    ensures
        res@ == v@,
{
    v.iter().collect()
}

/// Copies a piece of a vector.
pub fn subvec(v: &Vec<char>, lo: usize, hi: usize) -> (r: Vec<char>)
    requires
        lo <= hi <= v.len(),
    ensures
        r@ == v@.subrange(lo as int, hi as int),
{
    let mut r: Vec<char> = Vec::new();
    let mut i = lo;
    while i < hi
        invariant
            lo <= i <= hi <= v.len(),
            r@ == v@.subrange(lo as int, i as int),
        decreases hi - i,
    {
        r.push(v[i]);
        i = i + 1;
        assert(r@ =~= v@.subrange(lo as int, i as int));
    }
    r
}

/// Appends `b` to `a`.
pub fn append_chars(a: &mut Vec<char>, b: &Vec<char>)
    ensures
        final(a)@ == old(a)@ + b@,
{
    let mut i: usize = 0;
    let ghost a0 = a@;
    while i < b.len()
        invariant
            i <= b.len(),
            a@ == a0 + b@.subrange(0, i as int),
        decreases b.len() - i,
    {
        a.push(b[i]);
        i = i + 1;
        assert(a@ =~= a0 + b@.subrange(0, i as int));
    }
    assert(b@.subrange(0, b@.len() as int) =~= b@);
}

// ---------------------------------------------------------------------
// Trimming
// ---------------------------------------------------------------------
/// First index at or after `i` that holds no white space.
pub open spec fn skip_ws(s: Seq<char>, i: int) -> int
    decreases s.len() - i,
{
    if 0 <= i < s.len() && is_ws(s[i]) {
        skip_ws(s, i + 1)
    } else {
        i
    }
}

/// End of `s[a..j]` once trailing white space is removed.
pub open spec fn back_ws(s: Seq<char>, a: int, j: int) -> int
    decreases j - a,
{
    if a < j && j <= s.len() && is_ws(s[j - 1]) {
        back_ws(s, a, j - 1)
    } else {
        j
    }
}

/// `str::trim_start`.
pub open spec fn trim_start(s: Seq<char>) -> Seq<char> {
    s.subrange(skip_ws(s, 0), s.len() as int)
}

/// `str::trim`.
pub open spec fn trim(s: Seq<char>) -> Seq<char> {
    let a = skip_ws(s, 0);
    s.subrange(a, back_ws(s, a, s.len() as int))
}

pub proof fn lemma_skip_ws_bounds(s: Seq<char>, i: int)
    requires
        0 <= i <= s.len(),
    ensures
        i <= skip_ws(s, i) <= s.len(),
        forall|k: int| i <= k < skip_ws(s, i) ==> is_ws(s[k]),
        skip_ws(s, i) < s.len() ==> !is_ws(s[skip_ws(s, i)]),
    decreases s.len() - i,
{
    if i < s.len() && is_ws(s[i]) {
        lemma_skip_ws_bounds(s, i + 1);
    }
}

pub proof fn lemma_back_ws_bounds(s: Seq<char>, a: int, j: int)
    requires
        0 <= a <= j <= s.len(),
    ensures
        a <= back_ws(s, a, j) <= j,
        forall|k: int| back_ws(s, a, j) <= k < j ==> is_ws(s[k]),
        back_ws(s, a, j) > a ==> !is_ws(s[back_ws(s, a, j) - 1]),
    decreases j - a,
{
    if a < j && is_ws(s[j - 1]) {
        lemma_back_ws_bounds(s, a, j - 1);
    }
}

/// Bounds of the trimmed piece of `v`.
pub fn trim_bounds(v: &Vec<char>) -> (r: (usize, usize))
    ensures
        r.0 as int == skip_ws(v@, 0),
        r.1 as int == back_ws(v@, r.0 as int, v@.len() as int),
        r.0 <= r.1 <= v.len(),
{
    let mut a: usize = 0;
    while a < v.len() && is_whitespace_char(v[a])
        invariant
            a <= v.len(),
            skip_ws(v@, 0) == skip_ws(v@, a as int),
        decreases v.len() - a,
    {
        a = a + 1;
    }
    let mut b: usize = v.len();
    while b > a && is_whitespace_char(v[b - 1])
        invariant
            a <= b <= v.len(),
            back_ws(v@, a as int, v@.len() as int) == back_ws(v@, a as int, b as int),
        decreases b - a,
    {
        b = b - 1;
    }
    (a, b)
}

/// `str::trim`.
pub fn trim_chars(v: &Vec<char>) -> (r: Vec<char>)
    ensures
        r@ == trim(v@),
{
    let (a, b) = trim_bounds(v);
    subvec(v, a, b)
}

// ---------------------------------------------------------------------
// Lines
// ---------------------------------------------------------------------
/// Removes one trailing carriage return.
pub open spec fn strip_cr(s: Seq<char>) -> Seq<char> {
    if s.len() > 0 && s.last() == '\r' {
        s.drop_last()
    } else {
        s
    }
}

/// The lines of `s` from position `i` on (`str::lines`): pieces ended by
/// `'\n'`, with a `"\r\n"` or `"\n"` ending removed; a final piece without
/// an ending keeps its characters; no line is produced after a final ending.
pub open spec fn lines_from(s: Seq<char>, i: int) -> Seq<Seq<char>>
    decreases s.len() - i,
{
    if i < 0 || i >= s.len() {
        seq![]
    } else {
        match find_from(s, '\n', i) {
            None => seq![s.subrange(i, s.len() as int)],
            Some(j) => if i <= j && j < s.len() {
                seq![strip_cr(s.subrange(i, j))] + lines_from(s, j + 1)
            } else {
                seq![]
            },
        }
    }
}

pub open spec fn lines(s: Seq<char>) -> Seq<Seq<char>> {
    lines_from(s, 0)
}

/// The views of a vector of character vectors.
pub open spec fn views(v: Seq<Vec<char>>) -> Seq<Seq<char>> {
    v.map_values(|x: Vec<char>| x@)
}

/// `str::lines`.
pub fn lines_of(v: &Vec<char>) -> (r: Vec<Vec<char>>)
    ensures
        views(r@) == lines(v@),
{
    let mut r: Vec<Vec<char>> = Vec::new();
    let mut i: usize = 0;
    while i < v.len()
        invariant
            i <= v.len(),
            views(r@) + lines_from(v@, i as int) == lines(v@),
        decreases v.len() - i,
    {
        let ghost old_r = r@;
        proof {
            lemma_find_from_bounds(v@, '\n', i as int);
        }
        match find_char_from(v, '\n', i) {
            None => {
                let piece = subvec(v, i, v.len());
                r.push(piece);
                assert(views(r@) =~= views(old_r) + seq![v@.subrange(i as int, v@.len() as int)]);
                assert(lines_from(v@, v@.len() as int) =~= Seq::<Seq<char>>::empty());
                i = v.len();
                assert(views(r@) + lines_from(v@, i as int) =~= views(r@));
            },
            Some(j) => {
                let mut e = j;
                if e > i && v[e - 1] == '\r' {
                    e = e - 1;
                }
                let piece = subvec(v, i, e);
                assert(piece@ =~= strip_cr(v@.subrange(i as int, j as int)));
                r.push(piece);
                assert(views(r@) =~= views(old_r) + seq![piece@]);
                i = j + 1;
            },
        }
    }
    assert(lines_from(v@, i as int) =~= Seq::<Seq<char>>::empty());
    assert(views(r@) + lines_from(v@, i as int) =~= views(r@));
    r
}

// ---------------------------------------------------------------------
// Fields
// ---------------------------------------------------------------------
/// The pieces of `s[i..]` between occurrences of `sep` (`str::split` with a
/// character): there is always at least one piece, possibly empty.
pub open spec fn fields_from(s: Seq<char>, sep: char, i: int) -> Seq<Seq<char>>
    decreases s.len() - i,
{
    if i < 0 || i > s.len() {
        seq![]
    } else {
        match find_from(s, sep, i) {
            None => seq![s.subrange(i, s.len() as int)],
            Some(j) => if i <= j && j < s.len() {
                seq![s.subrange(i, j)] + fields_from(s, sep, j + 1)
            } else {
                seq![]
            },
        }
    }
}

pub open spec fn fields(s: Seq<char>, sep: char) -> Seq<Seq<char>> {
    fields_from(s, sep, 0)
}

/// `str::split` with a character separator.
pub fn split_on(v: &Vec<char>, sep: char) -> (r: Vec<Vec<char>>)
    ensures
        views(r@) == fields(v@, sep),
{
    let mut r: Vec<Vec<char>> = Vec::new();
    let mut i: usize = 0;
    loop
        invariant_except_break
            i <= v.len(),
            views(r@) + fields_from(v@, sep, i as int) == fields(v@, sep),
        ensures
            views(r@) == fields(v@, sep),
        decreases v.len() - i,
    {
        let ghost old_r = r@;
        proof {
            lemma_find_from_bounds(v@, sep, i as int);
        }
        match find_char_from(v, sep, i) {
            None => {
                let piece = subvec(v, i, v.len());
                r.push(piece);
                assert(views(r@) =~= views(old_r) + seq![v@.subrange(i as int, v@.len() as int)]);
                break;
            },
            Some(j) => {
                let piece = subvec(v, i, j);
                r.push(piece);
                assert(views(r@) =~= views(old_r) + seq![piece@]);
                assert(views(old_r) + fields_from(v@, sep, i as int) =~= views(r@) + fields_from(
                    v@,
                    sep,
                    j + 1,
                ));
                i = j + 1;
            },
        }
    }
    r
}

// ---------------------------------------------------------------------
// Words
// ---------------------------------------------------------------------
/// End of the word that starts at `i`.
pub open spec fn word_end(s: Seq<char>, i: int) -> int
    decreases s.len() - i,
{
    if 0 <= i < s.len() && !is_ws(s[i]) {
        word_end(s, i + 1)
    } else {
        i
    }
}

/// The white-space separated words of `s` from position `i` on
/// (`str::split_whitespace`).
pub open spec fn words_from(s: Seq<char>, i: int) -> Seq<Seq<char>>
    decreases s.len() - i, 1int,
{
    if i < 0 || i >= s.len() {
        seq![]
    } else if is_ws(s[i]) {
        words_from(s, i + 1)
    } else {
        words_after(s, i)
    }
}

pub open spec fn words_after(s: Seq<char>, i: int) -> Seq<Seq<char>>
    decreases s.len() - i, 0int,
{
    if 0 <= i < s.len() && !is_ws(s[i]) {
        let e = word_end(s, i + 1);
        if i < e && e <= s.len() {
            seq![s.subrange(i, e)] + words_from(s, e)
        } else {
            seq![]
        }
    } else {
        seq![]
    }
}

pub open spec fn words(s: Seq<char>) -> Seq<Seq<char>> {
    words_from(s, 0)
}

pub proof fn lemma_word_end_bounds(s: Seq<char>, i: int)
    requires
        0 <= i <= s.len(),
    ensures
        i <= word_end(s, i) <= s.len(),
        forall|k: int| i <= k < word_end(s, i) ==> !is_ws(s[k]),
        word_end(s, i) < s.len() ==> is_ws(s[word_end(s, i)]),
    decreases s.len() - i,
{
    if i < s.len() && !is_ws(s[i]) {
        lemma_word_end_bounds(s, i + 1);
    }
}

/// Every word is non-empty.
pub proof fn lemma_words_nonempty(s: Seq<char>, i: int)
    requires
        0 <= i <= s.len(),
    ensures
        forall|k: int| 0 <= k < words_from(s, i).len() ==> #[trigger] words_from(s, i)[k].len() > 0,
    decreases s.len() - i, 1int,
{
    if i < s.len() {
        if is_ws(s[i]) {
            lemma_words_nonempty(s, i + 1);
            assert(words_from(s, i) == words_from(s, i + 1));
        } else {
            lemma_word_end_bounds(s, i + 1);
            let e = word_end(s, i + 1);
            lemma_words_nonempty(s, e);
            let w = words_from(s, i);
            assert(w == words_after(s, i));
            assert(w == seq![s.subrange(i, e)] + words_from(s, e));
            assert forall|k: int| 0 <= k < w.len() implies #[trigger] w[k].len() > 0 by {
                if k > 0 {
                    assert(w[k] == words_from(s, e)[k - 1]);
                } else {
                    assert(w[0] == s.subrange(i, e));
                }
            }
        }
    }
}

/// `str::split_whitespace`.
pub fn words_of(v: &Vec<char>) -> (r: Vec<Vec<char>>)
    ensures
        views(r@) == words(v@),
{
    let mut r: Vec<Vec<char>> = Vec::new();
    let mut i: usize = 0;
    while i < v.len()
        invariant
            i <= v.len(),
            views(r@) + words_from(v@, i as int) == words(v@),
        decreases v.len() - i,
    {
        if is_whitespace_char(v[i]) {
            i = i + 1;
        } else {
            let ghost old_r = r@;
            let mut e = i + 1;
            while e < v.len() && !is_whitespace_char(v[e])
                invariant
                    i < e <= v.len(),
                    word_end(v@, i + 1) == word_end(v@, e as int),
                decreases v.len() - e,
            {
                e = e + 1;
            }
            let piece = subvec(v, i, e);
            r.push(piece);
            assert(views(r@) =~= views(old_r) + seq![piece@]);
            assert(words_from(v@, i as int) == words_after(v@, i as int));
            assert(views(r@) + words_from(v@, e as int) =~= views(old_r) + words_from(
                v@,
                i as int,
            ));
            i = e;
        }
    }
    assert(words_from(v@, i as int) =~= Seq::<Seq<char>>::empty());
    assert(views(r@) + words_from(v@, i as int) =~= views(r@));
    r
}

// ---------------------------------------------------------------------
// Integers
// ---------------------------------------------------------------------
/// All characters are ASCII decimal digits.
pub open spec fn all_digits(s: Seq<char>) -> bool {
    forall|i: int| 0 <= i < s.len() ==> is_digit(#[trigger] s[i])
}

/// Decimal value of a digit sequence.
pub open spec fn digits_value(s: Seq<char>) -> nat
    decreases s.len(),
{
    if s.len() == 0 {
        0
    } else {
        digits_value(s.drop_last()) * 10 + digit_value(s.last())
    }
}

/// The digits after an optional `'+'` (unsigned `from_str`).
pub open spec fn unsigned_body(s: Seq<char>) -> Seq<char> {
    if s.len() > 0 && s[0] == '+' {
        s.drop_first()
    } else {
        s
    }
}

/// What `str::parse::<u64>` accepts and returns.
pub open spec fn parse_u64_spec(s: Seq<char>) -> Option<u64> {
    let b = unsigned_body(s);
    if b.len() > 0 && all_digits(b) && digits_value(b) <= u64::MAX {
        Some(digits_value(b) as u64)
    } else {
        None
    }
}

/// What `str::parse::<u32>` accepts and returns.
pub open spec fn parse_u32_spec(s: Seq<char>) -> Option<u32> {
    let b = unsigned_body(s);
    if b.len() > 0 && all_digits(b) && digits_value(b) <= u32::MAX {
        Some(digits_value(b) as u32)
    } else {
        None
    }
}

/// What `str::parse::<i32>` accepts and returns.
pub open spec fn parse_i32_spec(s: Seq<char>) -> Option<i32> {
    if s.len() > 0 && s[0] == '-' {
        let b = s.drop_first();
        if b.len() > 0 && all_digits(b) && digits_value(b) <= 0x8000_0000 {
            Some((0 - digits_value(b)) as i32)
        } else {
            None
        }
    } else {
        let b = unsigned_body(s);
        if b.len() > 0 && all_digits(b) && digits_value(b) <= i32::MAX {
            Some(digits_value(b) as i32)
        } else {
            None
        }
    }
}

pub proof fn lemma_digits_value_take_step(s: Seq<char>, k: int)
    requires
        0 <= k < s.len(),
    ensures
        digits_value(s.take(k + 1)) == digits_value(s.take(k)) * 10 + digit_value(s[k]),
{
    assert(s.take(k + 1).drop_last() =~= s.take(k));
}

pub proof fn lemma_digits_value_mono(s: Seq<char>, k: int)
    requires
        0 <= k <= s.len(),
    ensures
        digits_value(s.take(k)) <= digits_value(s),
    decreases s.len() - k,
{
    if k < s.len() {
        lemma_digits_value_take_step(s, k);
        lemma_digits_value_mono(s, k + 1);
    } else {
        assert(s.take(k) =~= s);
    }
}

/// Decimal value of `v[lo..]` when it is a digit run no larger than `limit`.
pub fn digits_upto(v: &Vec<char>, lo: usize, limit: u64) -> (r: Option<u64>)
    requires
        lo <= v.len(),
        limit >= 9,
    ensures
        ({
            let b = v@.subrange(lo as int, v@.len() as int);
            r == if all_digits(b) && digits_value(b) <= limit {
                Some(digits_value(b) as u64)
            } else {
                None::<u64>
            }
        }),
{
    let ghost b = v@.subrange(lo as int, v@.len() as int);
    let mut acc: u64 = 0;
    let mut i = lo;
    while i < v.len()
        invariant
            lo <= i <= v.len(),
            b == v@.subrange(lo as int, v@.len() as int),
            all_digits(b.take(i - lo)),
            acc as nat == digits_value(b.take(i - lo)),
            acc <= limit,
            limit >= 9,
        decreases v.len() - i,
    {
        let c = v[i];
        assert(b[i - lo] == c);
        if !('0' <= c && c <= '9') {
            return None;
        }
        let d = (c as u32 - '0' as u32) as u64;
        proof {
            lemma_digits_value_take_step(b, i - lo);
        }
        if acc > (limit - d) / 10 {
            proof {
                assert(acc * 10 + d > limit) by (nonlinear_arith)
                    requires
                        acc > (limit - d) / 10,
                        d <= 9,
                        d <= limit || acc > 0,
                ;
                lemma_digits_value_mono(b, i - lo + 1);
            }
            return None;
        }
        assert(acc * 10 + d <= limit) by (nonlinear_arith)
            requires
                acc <= (limit - d) / 10,
                d <= limit,
        ;
        acc = acc * 10 + d;
        i = i + 1;
        assert forall|k: int| 0 <= k < b.take(i - lo).len() implies is_digit(
            #[trigger] b.take(i - lo)[k],
        ) by {
            if k < i - lo - 1 {
                assert(b.take(i - lo)[k] == b.take(i - lo - 1)[k]);
            }
        }
    }
    assert(b.take(i - lo) =~= b);
    Some(acc)
}

/// `str::parse::<u64>`.
pub fn parse_u64(v: &Vec<char>) -> (r: Option<u64>)
    ensures
        r == parse_u64_spec(v@),
{
    let lo: usize = if v.len() > 0 && v[0] == '+' {
        1
    } else {
        0
    };
    assert(unsigned_body(v@) =~= v@.subrange(lo as int, v@.len() as int));
    if lo >= v.len() {
        return None;
    }
    digits_upto(v, lo, u64::MAX)
}

/// `str::parse::<u32>`.
pub fn parse_u32(v: &Vec<char>) -> (r: Option<u32>)
    ensures
        r == parse_u32_spec(v@),
{
    let lo: usize = if v.len() > 0 && v[0] == '+' {
        1
    } else {
        0
    };
    assert(unsigned_body(v@) =~= v@.subrange(lo as int, v@.len() as int));
    if lo >= v.len() {
        return None;
    }
    match digits_upto(v, lo, u32::MAX as u64) {
        Some(x) => Some(x as u32),
        None => None,
    }
}

/// `str::parse::<i32>`.
pub fn parse_i32(v: &Vec<char>) -> (r: Option<i32>)
    ensures
        r == parse_i32_spec(v@),
{
    if v.len() > 0 && v[0] == '-' {
        assert(v@.drop_first() =~= v@.subrange(1, v@.len() as int));
        if v.len() == 1 {
            return None;
        }
        match digits_upto(v, 1, 0x8000_0000u64) {
            Some(x) => Some((0 - (x as i64)) as i32),
            None => None,
        }
    } else {
        let lo: usize = if v.len() > 0 && v[0] == '+' {
            1
        } else {
            0
        };
        assert(unsigned_body(v@) =~= v@.subrange(lo as int, v@.len() as int));
        if lo >= v.len() {
            return None;
        }
        match digits_upto(v, lo, 0x7fff_ffffu64) {
            Some(x) => Some(x as i32),
            None => None,
        }
    }
}

/// Decimal digits of `n` (`to_string` of an unsigned integer).
pub open spec fn decimal(n: nat) -> Seq<char>
    decreases n,
{
    if n < 10 {
        seq![digit_char(n)]
    } else {
        decimal(n / 10).push(digit_char(n % 10))
    }
}

/// `to_string` of a signed integer.
pub open spec fn decimal_int(n: int) -> Seq<char> {
    if n < 0 {
        seq!['-'] + decimal((0 - n) as nat)
    } else {
        decimal(n as nat)
    }
}

/// The character of a decimal digit.
pub fn digit_to_char(d: u64) -> (c: char)
    requires
        d < 10,
    ensures
        c == digit_char(d as nat),
{
    match d {
        0 => '0',
        1 => '1',
        2 => '2',
        3 => '3',
        4 => '4',
        5 => '5',
        6 => '6',
        7 => '7',
        8 => '8',
        _ => '9',
    }
}

/// Decimal representation of `n`.
pub fn decimal_u64(n: u64) -> (r: Vec<char>)
    ensures
        r@ == decimal(n as nat),
    decreases n,
{
    let c = digit_to_char(n % 10);
    if n < 10 {
        let mut r: Vec<char> = Vec::new();
        r.push(c);
        assert(r@ =~= seq![digit_char(n as nat)]);
        r
    } else {
        let mut r = decimal_u64(n / 10);
        r.push(c);
        r
    }
}

/// Decimal representation of `n`, with a leading `'-'` when negative.
pub fn decimal_i32(n: i32) -> (r: Vec<char>)
    ensures
        r@ == decimal_int(n as int),
{
    if n < 0 {
        let m = (0 - (n as i64)) as u64;
        let mut r: Vec<char> = Vec::new();
        r.push('-');
        let d = decimal_u64(m);
        append_chars(&mut r, &d);
        r
    } else {
        decimal_u64(n as u64)
    }
}

// ---------------------------------------------------------------------
// Case mapping
// ---------------------------------------------------------------------
/// The lowercase form of a string as `str::to_lowercase` gives it (the
/// Unicode `Lowercase` mapping of each character; one character may map to
/// several).
pub uninterp spec fn lowercase(s: Seq<char>) -> Seq<char>;

/// The ASCII lowercase of a character: `A`..`Z` become `a`..`z`, any
/// other character stays.
pub open spec fn ascii_lower(c: char) -> char {
    if 65 <= (c as u32) <= 90 {
        ((c as u32) + 32) as char
    } else {
        c
    }
}

/// Every character of the text is ASCII.
pub open spec fn all_ascii(s: Seq<char>) -> bool {
    forall|i: int| 0 <= i < s.len() ==> (#[trigger] s[i] as u32) < 128
}

/// `str::to_lowercase`. Its result is named: the Unicode case tables it
/// follows are std's. Stated beside the name: empty text stays empty, and
/// on ASCII text it maps each character by its ASCII lowercase (the
/// Unicode lowercase mapping of an ASCII character is its ASCII one, one
/// character for one).
#[verifier::external_body]
pub(crate) fn to_lowercase(s: &str) -> (r: String)
    ensures
        r@ == lowercase(s@),
        s@.len() == 0 ==> r@.len() == 0,
        all_ascii(s@) ==> r@ == s@.map_values(|c: char| ascii_lower(c)),
{
    s.to_lowercase()
}

} // verus!
