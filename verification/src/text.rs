//! Character-level scanning primitives shared by the puzzle parsers.
//!
//! Every executable scanner mirrors a recursive specification function, so
//! each contract states exactly which characters are consumed and what value
//! they denote.

use vstd::prelude::*;

verus! {

/// The blank characters the puzzle inputs use: the ASCII whitespace set.
pub open spec fn is_blank(c: char) -> bool {
    c == ' ' || c == '\t' || c == '\r' || c == '\n'
}

pub open spec fn is_digit(c: char) -> bool {
    '0' <= c && c <= '9'
}

pub open spec fn digit_val(c: char) -> int {
    c as int - '0' as int
}

/// A sequence made only of blanks (so the line reads as empty).
pub open spec fn all_blank(s: Seq<char>) -> bool {
    forall|i: int| 0 <= i < s.len() ==> is_blank(#[trigger] s[i])
}

/// A non-empty sequence made only of decimal digits.
pub open spec fn is_digits(s: Seq<char>) -> bool {
    s.len() > 0 && forall|i: int| 0 <= i < s.len() ==> is_digit(#[trigger] s[i])
}

/// The number a digit sequence denotes in base ten.
pub open spec fn digits_val(s: Seq<char>) -> int
    decreases s.len(),
{
    if s.len() == 0 {
        0
    } else {
        10 * digits_val(s.drop_last()) + digit_val(s.last())
    }
}

pub fn blank_char(c: char) -> (b: bool)
    ensures
        b == is_blank(c),
{
    c == ' ' || c == '\t' || c == '\r' || c == '\n'
}

pub fn digit_char(c: char) -> (b: bool)
    ensures
        b == is_digit(c),
{
    '0' <= c && c <= '9'
}

/// Index of the first non-blank character at or after `i` (or the length).
pub open spec fn skip_blank(s: Seq<char>, i: int) -> int
    decreases s.len() - i,
{
    if i < 0 || i >= s.len() {
        s.len() as int
    } else if is_blank(s[i]) {
        skip_blank(s, i + 1)
    } else {
        i
    }
}

pub fn skip_blank_from(s: &Vec<char>, i: usize) -> (r: usize)
    requires
        i <= s@.len(),
    ensures
        r == skip_blank(s@, i as int),
        i <= r <= s@.len(),
    decreases s@.len() - i,
{
    if i == s.len() {
        i
    } else if blank_char(s[i]) {
        skip_blank_from(s, i + 1)
    } else {
        i
    }
}

/// Index of the first blank character at or after `i` (or the length):
/// the end of the token starting at `i`.
pub open spec fn token_end(s: Seq<char>, i: int) -> int
    decreases s.len() - i,
{
    if i < 0 || i >= s.len() {
        s.len() as int
    } else if is_blank(s[i]) {
        i
    } else {
        token_end(s, i + 1)
    }
}

pub fn token_end_from(s: &Vec<char>, i: usize) -> (r: usize)
    requires
        i <= s@.len(),
    ensures
        r == token_end(s@, i as int),
        i <= r <= s@.len(),
    decreases s@.len() - i,
{
    if i == s.len() {
        i
    } else if blank_char(s[i]) {
        i
    } else {
        token_end_from(s, i + 1)
    }
}

/// End of the trimmed part: the least `r` such that everything in `[r, j)`
/// is blank and `r` is not preceded by a blank run that could shrink further.
pub open spec fn trim_end(s: Seq<char>, j: int) -> int
    decreases j,
{
    if j <= 0 || j > s.len() {
        0
    } else if is_blank(s[j - 1]) {
        trim_end(s, j - 1)
    } else {
        j
    }
}

pub fn trim_end_from(s: &Vec<char>, j: usize) -> (r: usize)
    requires
        j <= s@.len(),
    ensures
        r == trim_end(s@, j as int),
        r <= j,
    decreases j,
{
    if j == 0 {
        0
    } else if blank_char(s[j - 1]) {
        trim_end_from(s, j - 1)
    } else {
        j
    }
}

/// What `str::trim` leaves: the text with leading and trailing blanks gone.
pub open spec fn spec_trim(s: Seq<char>) -> Seq<char> {
    if skip_blank(s, 0) >= trim_end(s, s.len() as int) {
        Seq::empty()
    } else {
        s.subrange(skip_blank(s, 0), trim_end(s, s.len() as int))
    }
}

pub fn subvec(s: &Vec<char>, lo: usize, hi: usize) -> (r: Vec<char>)
    requires
        lo <= hi <= s@.len(),
    ensures
        r@ == s@.subrange(lo as int, hi as int),
{
    let mut r: Vec<char> = Vec::new();
    let mut i: usize = lo;
    while i < hi
        invariant
            lo <= i <= hi <= s@.len(),
            r@ == s@.subrange(lo as int, i as int),
        decreases hi - i,
    {
        r.push(s[i]);
        i = i + 1;
        proof {
            assert(r@ =~= s@.subrange(lo as int, i as int));
        }
    }
    r
}

pub fn trim_of(s: &Vec<char>) -> (r: Vec<char>)
    ensures
        r@ == spec_trim(s@),
{
    let a = skip_blank_from(s, 0);
    let b = trim_end_from(s, s.len());
    if a >= b {
        proof {
            assert(Seq::<char>::empty() =~= spec_trim(s@));
        }
        Vec::new()
    } else {
        subvec(s, a, b)
    }
}

/// The characters of a string, as a vector the verified scanners can index.
pub fn chars_of(s: &str) -> (r: Vec<char>)
    ensures
        r@ == s@,
{
    let n = s.unicode_len();
    let mut r: Vec<char> = Vec::new();
    let mut i: usize = 0;
    while i < n
        invariant
            i <= n,
            n == s@.len(),
            r@ == s@.take(i as int),
        decreases n - i,
    {
        r.push(s.get_char(i));
        i = i + 1;
        proof {
            assert(r@ =~= s@.take(i as int));
        }
    }
    proof {
        assert(s@.take(n as int) =~= s@);
    }
    r
}

/// Relies on `core::iter::Iterator::collect`: collecting the characters of a
/// vector yields the string whose characters they are, in order.
#[verifier::external_body]
pub fn string_from_chars(v: &Vec<char>) -> (r: String)
    ensures
        r@ == v@,
{
    v.iter().collect()
}

/// Pushing one character extends the membership of a sequence by exactly
/// that character.
pub proof fn lemma_push_contains(s: Seq<char>, x: char, c: char)
    ensures
        s.push(x).contains(c) <==> (s.contains(c) || c == x),
{
    assert(s.push(x)[s.len() as int] == x);
    if s.contains(c) {
        let i = choose|i: int| 0 <= i < s.len() && s[i] == c;
        assert(s.push(x)[i] == c);
    }
    if s.push(x).contains(c) {
        let i = choose|i: int| 0 <= i < s.push(x).len() && s.push(x)[i] == c;
        if i < s.len() {
            assert(s[i] == c);
        }
    }
}

/// Dropping the last character can only remove membership of that
/// character.
pub proof fn lemma_drop_last_contains(s: Seq<char>, c: char)
    requires
        s.len() > 0,
    ensures
        s.contains(c) <==> (s.drop_last().contains(c) || s.last() == c),
{
    assert(s.drop_last().push(s.last()) =~= s);
    lemma_push_contains(s.drop_last(), s.last(), c);
}

/// The first character left by `skip_blank` is not blank.
pub proof fn lemma_skip_blank_first(s: Seq<char>, i: int)
    requires
        0 <= i <= s.len(),
    ensures
        i <= skip_blank(s, i) <= s.len(),
        skip_blank(s, i) < s.len() ==> !is_blank(s[skip_blank(s, i)]),
    decreases s.len() - i,
{
    if i < s.len() && is_blank(s[i]) {
        lemma_skip_blank_first(s, i + 1);
    }
}

/// The last character kept by `trim_end` is not blank.
pub proof fn lemma_trim_end_last(s: Seq<char>, j: int)
    requires
        0 <= j <= s.len(),
    ensures
        0 <= trim_end(s, j) <= j,
        trim_end(s, j) > 0 ==> !is_blank(s[trim_end(s, j) - 1]),
    decreases j,
{
    if j > 0 && is_blank(s[j - 1]) {
        lemma_trim_end_last(s, j - 1);
    }
}

/// Trimming an already trimmed text changes nothing.
pub proof fn lemma_trim_idempotent(s: Seq<char>)
    ensures
        spec_trim(spec_trim(s)) == spec_trim(s),
{
    lemma_skip_blank_first(s, 0);
    lemma_trim_end_last(s, s.len() as int);
    let a = skip_blank(s, 0);
    let b = trim_end(s, s.len() as int);
    if a >= b {
        assert(spec_trim(s) =~= Seq::<char>::empty());
        assert(spec_trim(spec_trim(s)) =~= Seq::<char>::empty());
    } else {
        let t = spec_trim(s);
        assert(t == s.subrange(a, b));
        assert(!is_blank(t[0]));
        assert(!is_blank(t[t.len() - 1]));
        assert(skip_blank(t, 0) == 0);
        assert(trim_end(t, t.len() as int) == t.len());
        assert(spec_trim(t) =~= t);
    }
}

pub fn all_blank_vec(v: &Vec<char>) -> (b: bool)
    ensures
        b == all_blank(v@),
{
    let mut i: usize = 0;
    while i < v.len()
        invariant
            i <= v@.len(),
            forall|j: int| 0 <= j < i ==> is_blank(#[trigger] v@[j]),
        decreases v@.len() - i,
    {
        if !blank_char(v[i]) {
            return false;
        }
        i = i + 1;
    }
    true
}

pub fn vec_take(v: &Vec<char>, n: usize) -> (r: Vec<char>)
    requires
        n <= v@.len(),
    ensures
        r@ == v@.take(n as int),
{
    let r = subvec(v, 0, n);
    proof {
        assert(v@.subrange(0, n as int) =~= v@.take(n as int));
    }
    r
}

pub fn vec_skip(v: &Vec<char>, n: usize) -> (r: Vec<char>)
    requires
        n <= v@.len(),
    ensures
        r@ == v@.skip(n as int),
{
    let r = subvec(v, n, v.len());
    proof {
        assert(v@.subrange(n as int, v@.len() as int) =~= v@.skip(n as int));
    }
    r
}

pub fn vec_reverse(v: &Vec<char>) -> (r: Vec<char>)
    ensures
        r@ == v@.reverse(),
{
    let mut r: Vec<char> = Vec::new();
    let mut i: usize = 0;
    while i < v.len()
        invariant
            i <= v@.len(),
            r@.len() == i,
            forall|j: int| 0 <= j < i ==> r@[j] == v@[v@.len() - 1 - j],
        decreases v@.len() - i,
    {
        r.push(v[v.len() - 1 - i]);
        i = i + 1;
    }
    proof {
        assert(r@ =~= v@.reverse());
    }
    r
}

pub fn vec_concat(a: &Vec<char>, b: &Vec<char>) -> (r: Vec<char>)
    ensures
        r@ == a@ + b@,
{
    let mut r = subvec(a, 0, a.len());
    let mut i: usize = 0;
    while i < b.len()
        invariant
            i <= b@.len(),
            r@ == a@.subrange(0, a@.len() as int) + b@.take(i as int),
        decreases b@.len() - i,
    {
        r.push(b[i]);
        i = i + 1;
        proof {
            assert(r@ =~= a@.subrange(0, a@.len() as int) + b@.take(i as int));
        }
    }
    proof {
        assert(r@ =~= a@ + b@);
    }
    r
}

/// Index of the first occurrence of `c` at or after `i` (or the length).
pub open spec fn find_char(s: Seq<char>, c: char, i: int) -> int
    decreases s.len() - i,
{
    if i < 0 || i >= s.len() {
        s.len() as int
    } else if s[i] == c {
        i
    } else {
        find_char(s, c, i + 1)
    }
}

pub fn find_char_from(s: &Vec<char>, c: char, i: usize) -> (r: usize)
    requires
        i <= s@.len(),
    ensures
        r == find_char(s@, c, i as int),
        i <= r <= s@.len(),
    decreases s@.len() - i,
{
    if i == s.len() {
        i
    } else if s[i] == c {
        i
    } else {
        find_char_from(s, c, i + 1)
    }
}

/// The lines of a text, accumulated left to right: a newline closes the
/// current line, and a last line is kept only if it holds any characters
/// (so a trailing newline adds no empty line, as `str::lines` has it).
pub open spec fn lines_acc(s: Seq<char>, i: int, cur: Seq<char>, acc: Seq<Seq<char>>) -> Seq<
    Seq<char>,
>
    decreases s.len() - i,
{
    if i < 0 || i >= s.len() {
        if cur.len() > 0 {
            acc.push(cur)
        } else {
            acc
        }
    } else if s[i] == '\n' {
        lines_acc(s, i + 1, Seq::empty(), acc.push(cur))
    } else {
        lines_acc(s, i + 1, cur.push(s[i]), acc)
    }
}

pub open spec fn lines_of(s: Seq<char>) -> Seq<Seq<char>> {
    lines_acc(s, 0, Seq::empty(), Seq::empty())
}

/// The contents of a vector of character vectors, as a sequence of
/// character sequences.
pub open spec fn views_of(v: Vec<Vec<char>>) -> Seq<Seq<char>> {
    Seq::new(v@.len(), |i: int| v@[i]@)
}

pub fn lines_vec(s: &Vec<char>) -> (r: Vec<Vec<char>>)
    ensures
        views_of(r) == lines_of(s@),
{
    let mut acc: Vec<Vec<char>> = Vec::new();
    let mut cur: Vec<char> = Vec::new();
    let mut i: usize = 0;
    proof {
        assert(cur@ =~= Seq::<char>::empty());
        assert(views_of(acc) =~= Seq::<Seq<char>>::empty());
    }
    while i < s.len()
        invariant
            i <= s@.len(),
            lines_acc(s@, i as int, cur@, views_of(acc)) == lines_of(s@),
        decreases s@.len() - i,
    {
        if s[i] == '\n' {
            let ghost prev = views_of(acc);
            acc.push(cur);
            proof {
                assert(views_of(acc) =~= prev.push(cur@));
            }
            cur = Vec::new();
        } else {
            cur.push(s[i]);
        }
        i = i + 1;
    }
    if cur.len() > 0 {
        let ghost prev = views_of(acc);
        acc.push(cur);
        proof {
            assert(views_of(acc) =~= prev.push(cur@));
        }
    }
    acc
}

proof fn lemma_digits_val_nonneg(s: Seq<char>)
    requires
        forall|i: int| 0 <= i < s.len() ==> is_digit(#[trigger] s[i]),
    ensures
        digits_val(s) >= 0,
    decreases s.len(),
{
    if s.len() > 0 {
        lemma_digits_val_nonneg(s.drop_last());
    }
}

/// Adding digits at the back never makes the denoted number smaller.
proof fn lemma_digits_val_prefix_le(s: Seq<char>, i: int)
    requires
        forall|k: int| 0 <= k < s.len() ==> is_digit(#[trigger] s[k]),
        0 <= i <= s.len(),
    ensures
        digits_val(s.take(i)) <= digits_val(s),
    decreases s.len() - i,
{
    if i == s.len() {
        assert(s.take(i) =~= s);
    } else {
        assert(s.take(i + 1).drop_last() =~= s.take(i));
        assert(s.take(i + 1).last() == s[i]);
        lemma_digits_val_nonneg(s.take(i));
        lemma_digits_val_prefix_le(s, i + 1);
    }
}

/// Reads a whole vector of digits as a `usize`; yields nothing exactly when
/// some character is no digit, the vector is empty, or the number does not
/// fit the machine word.
pub fn parse_usize(s: &Vec<char>) -> (r: Option<usize>)
    ensures
        r is Some <==> is_digits(s@) && digits_val(s@) <= usize::MAX,
        r is Some ==> r->0 == digits_val(s@),
{
    let mut acc: usize = 0;
    let mut i: usize = 0;
    while i < s.len()
        invariant
            i <= s@.len(),
            forall|k: int| 0 <= k < i ==> is_digit(#[trigger] s@[k]),
            acc == digits_val(s@.take(i as int)),
        decreases s@.len() - i,
    {
        let c = s[i];
        if !digit_char(c) {
            return None;
        }
        let d: u32 = c as u32 - 48;
        let wide: u128 = acc as u128 * 10 + d as u128;
        proof {
            assert(s@.take(i + 1 as int).drop_last() =~= s@.take(i as int));
            assert(s@.take(i + 1 as int).last() == s@[i as int]);
        }
        if wide > usize::MAX as u128 {
            proof {
                if is_digits(s@) {
                    lemma_digits_val_prefix_le(s@, i + 1 as int);
                }
            }
            return None;
        }
        acc = wide as usize;
        i = i + 1;
    }
    if s.len() == 0 {
        return None;
    }
    proof {
        assert(s@.take(s@.len() as int) =~= s@);
    }
    Some(acc)
}

/// A signed decimal literal: an optional sign, then at least one digit.
pub open spec fn is_int_str(s: Seq<char>) -> bool {
    if s.len() > 0 && (s[0] == '-' || s[0] == '+') {
        is_digits(s.skip(1))
    } else {
        is_digits(s)
    }
}

pub open spec fn int_str_val(s: Seq<char>) -> int {
    if s.len() > 0 && s[0] == '-' {
        -digits_val(s.skip(1))
    } else if s.len() > 0 && s[0] == '+' {
        digits_val(s.skip(1))
    } else {
        digits_val(s)
    }
}

/// Reads a signed decimal literal as an `i32`; yields nothing exactly when
/// the text is no such literal or its value does not fit.
pub fn parse_i32(s: &Vec<char>) -> (r: Option<i32>)
    ensures
        r is Some <==> is_int_str(s@) && i32::MIN <= int_str_val(s@) <= i32::MAX,
        r is Some ==> r->0 == int_str_val(s@),
{
    let mut start: usize = 0;
    let mut negative = false;
    if s.len() > 0 && (s[0] == '-' || s[0] == '+') {
        negative = s[0] == '-';
        start = 1;
    }
    let ghost digits = s@.skip(start as int);
    let mut acc: u64 = 0;
    let mut i: usize = start;
    while i < s.len()
        invariant
            start <= i <= s@.len(),
            digits == s@.skip(start as int),
            start == 0 || start == 1,
            start <= s@.len(),
            (start == 1) <==> (s@.len() > 0 && (s@[0] == '-' || s@[0] == '+')),
            negative <==> (s@.len() > 0 && s@[0] == '-'),
            forall|k: int| 0 <= k < i - start ==> is_digit(#[trigger] digits[k]),
            acc == digits_val(digits.take(i - start)),
            acc <= 0x8000_0000u64,
        decreases s@.len() - i,
    {
        let c = s[i];
        if !digit_char(c) {
            proof {
                if start == 0 {
                    assert(s@.skip(0) =~= s@);
                }
                assert(!is_digit(digits[i - start]));
            }
            return None;
        }
        let d: u64 = c as u64 - 48;
        let wide: u64 = acc * 10 + d;
        proof {
            assert(digits.take(i + 1 - start).drop_last() =~= digits.take(i - start));
            assert(digits.take(i + 1 - start).last() == digits[i - start]);
        }
        if wide > 0x8000_0000u64 {
            proof {
                if start == 0 {
                    assert(s@.skip(0) =~= s@);
                }
                if is_digits(digits) {
                    lemma_digits_val_prefix_le(digits, i + 1 - start);
                }
            }
            return None;
        }
        acc = wide;
        i = i + 1;
    }
    if s.len() == start {
        return None;
    }
    proof {
        assert(digits.take(s@.len() - start) =~= digits);
        if start == 0 {
            assert(s@.skip(0) =~= s@);
        }
    }
    if negative {
        if acc == 0x8000_0000u64 {
            Some(i32::MIN)
        } else {
            Some(-(acc as i32))
        }
    } else {
        if acc == 0x8000_0000u64 {
            None
        } else {
            Some(acc as i32)
        }
    }
}

} // verus!
