//! Scanning and building character sequences.
use vstd::prelude::*;
use crate::text::{alphabetic, alphanumeric, whitespace, is_digit, digit, is_alphabetic, is_alphanumeric, is_whitespace, chars_of};

verus! {

/// The first position at or after `i` that holds `ch`, or the length.
pub open spec fn first_from(c: Seq<char>, i: int, ch: char) -> int
    decreases c.len() - i,
{
    if i >= c.len() {
        c.len() as int
    } else if c[i] == ch {
        i
    } else {
        first_from(c, i + 1, ch)
    }
}

/// The end of the run of alphabetic characters that starts at `i`.
pub open spec fn alpha_end(c: Seq<char>, i: int) -> int
    decreases c.len() - i,
{
    if i >= c.len() {
        c.len() as int
    } else if alphabetic(c[i]) {
        alpha_end(c, i + 1)
    } else {
        i
    }
}

/// The end of the run of alphanumeric characters that starts at `i`.
pub open spec fn alnum_end(c: Seq<char>, i: int) -> int
    decreases c.len() - i,
{
    if i >= c.len() {
        c.len() as int
    } else if alphanumeric(c[i]) {
        alnum_end(c, i + 1)
    } else {
        i
    }
}

/// The end of the run of ASCII digits that starts at `i`.
pub open spec fn digit_end(c: Seq<char>, i: int) -> int
    decreases c.len() - i,
{
    if i >= c.len() {
        c.len() as int
    } else if is_digit(c[i]) {
        digit_end(c, i + 1)
    } else {
        i
    }
}

/// Scanning from `i` at parenthesis depth `depth`: the position of the `)`
/// that brings the depth to zero, or the length.
pub open spec fn paren_close(c: Seq<char>, i: int, depth: int) -> int
    decreases c.len() - i,
{
    if i >= c.len() {
        c.len() as int
    } else if c[i] == '(' {
        paren_close(c, i + 1, depth + 1)
    } else if c[i] == ')' {
        if depth - 1 == 0 {
            i
        } else {
            paren_close(c, i + 1, depth - 1)
        }
    } else {
        paren_close(c, i + 1, depth)
    }
}

pub proof fn lemma_first_from(c: Seq<char>, i: int, ch: char)
    requires
        0 <= i <= c.len(),
    ensures
        i <= first_from(c, i, ch) <= c.len(),
        first_from(c, i, ch) < c.len() ==> c[first_from(c, i, ch)] == ch,
        forall|j: int| i <= j < first_from(c, i, ch) ==> c[j] != ch,
    decreases c.len() - i,
{
    if i < c.len() && c[i] != ch {
        lemma_first_from(c, i + 1, ch);
    }
}

pub proof fn lemma_alpha_end(c: Seq<char>, i: int)
    requires
        0 <= i <= c.len(),
    ensures
        i <= alpha_end(c, i) <= c.len(),
        alpha_end(c, i) < c.len() ==> !alphabetic(c[alpha_end(c, i)]),
        forall|j: int| i <= j < alpha_end(c, i) ==> alphabetic(c[j]),
    decreases c.len() - i,
{
    if i < c.len() && alphabetic(c[i]) {
        lemma_alpha_end(c, i + 1);
    }
}

pub proof fn lemma_alnum_end(c: Seq<char>, i: int)
    requires
        0 <= i <= c.len(),
    ensures
        i <= alnum_end(c, i) <= c.len(),
        alnum_end(c, i) < c.len() ==> !alphanumeric(c[alnum_end(c, i)]),
        forall|j: int| i <= j < alnum_end(c, i) ==> alphanumeric(c[j]),
    decreases c.len() - i,
{
    if i < c.len() && alphanumeric(c[i]) {
        lemma_alnum_end(c, i + 1);
    }
}

pub proof fn lemma_digit_end(c: Seq<char>, i: int)
    requires
        0 <= i <= c.len(),
    ensures
        i <= digit_end(c, i) <= c.len(),
        digit_end(c, i) < c.len() ==> !is_digit(c[digit_end(c, i)]),
        forall|j: int| i <= j < digit_end(c, i) ==> is_digit(c[j]),
    decreases c.len() - i,
{
    if i < c.len() && is_digit(c[i]) {
        lemma_digit_end(c, i + 1);
    }
}

pub proof fn lemma_paren_close(c: Seq<char>, i: int, depth: int)
    requires
        0 <= i <= c.len(),
    ensures
        i <= paren_close(c, i, depth) <= c.len(),
        paren_close(c, i, depth) < c.len() ==> c[paren_close(c, i, depth)] == ')',
    decreases c.len() - i,
{
    if i < c.len() {
        if c[i] == '(' {
            lemma_paren_close(c, i + 1, depth + 1);
        } else if c[i] == ')' {
            if depth - 1 != 0 {
                lemma_paren_close(c, i + 1, depth - 1);
            }
        } else {
            lemma_paren_close(c, i + 1, depth);
        }
    }
}

pub fn find_from(c: &Vec<char>, i: usize, ch: char) -> (r: usize)
    requires
        i <= c@.len(),
    ensures
        r == first_from(c@, i as int, ch),
{
    let mut j = i;
    while j < c.len()
        invariant
            i <= j <= c@.len(),
            first_from(c@, i as int, ch) == first_from(c@, j as int, ch),
        decreases c@.len() - j,
    {
        if c[j] == ch {
            return j;
        }
        j = j + 1;
    }
    j
}

pub fn scan_alpha(c: &Vec<char>, i: usize) -> (r: usize)
    requires
        i <= c@.len(),
    ensures
        r == alpha_end(c@, i as int),
{
    let mut j = i;
    while j < c.len()
        invariant
            i <= j <= c@.len(),
            alpha_end(c@, i as int) == alpha_end(c@, j as int),
        decreases c@.len() - j,
    {
        if !is_alphabetic(c[j]) {
            return j;
        }
        j = j + 1;
    }
    j
}

pub fn scan_alnum(c: &Vec<char>, i: usize) -> (r: usize)
    requires
        i <= c@.len(),
    ensures
        r == alnum_end(c@, i as int),
{
    let mut j = i;
    while j < c.len()
        invariant
            i <= j <= c@.len(),
            alnum_end(c@, i as int) == alnum_end(c@, j as int),
        decreases c@.len() - j,
    {
        if !is_alphanumeric(c[j]) {
            return j;
        }
        j = j + 1;
    }
    j
}

pub fn scan_digits(c: &Vec<char>, i: usize) -> (r: usize)
    requires
        i <= c@.len(),
    ensures
        r == digit_end(c@, i as int),
{
    let mut j = i;
    while j < c.len()
        invariant
            i <= j <= c@.len(),
            digit_end(c@, i as int) == digit_end(c@, j as int),
        decreases c@.len() - j,
    {
        if !digit(c[j]) {
            return j;
        }
        j = j + 1;
    }
    j
}

/// Finds the `)` that closes a parenthesis opened just before `i`.
pub fn scan_paren_close(c: &Vec<char>, i: usize) -> (r: usize)
    requires
        i <= c@.len(),
    ensures
        r == paren_close(c@, i as int, 1),
{
    let mut j = i;
    let mut extra: usize = 0;
    while j < c.len()
        invariant
            i <= j <= c@.len(),
            extra <= j - i,
            paren_close(c@, i as int, 1) == paren_close(c@, j as int, extra + 1),
        decreases c@.len() - j,
    {
        if c[j] == '(' {
            extra = extra + 1;
        } else if c[j] == ')' {
            if extra == 0 {
                return j;
            }
            extra = extra - 1;
        }
        j = j + 1;
    }
    j
}

/// The characters `lo..hi` of `c`.
pub fn slice(c: &Vec<char>, lo: usize, hi: usize) -> (r: Vec<char>)
    requires
        lo <= hi <= c@.len(),
    ensures
        r@ == c@.subrange(lo as int, hi as int),
{
    let mut r: Vec<char> = Vec::new();
    let mut j = lo;
    while j < hi
        invariant
            lo <= j <= hi <= c@.len(),
            r@ == c@.subrange(lo as int, j as int),
        decreases hi - j,
    {
        r.push(c[j]);
        j = j + 1;
        assert(r@ =~= c@.subrange(lo as int, j as int));
    }
    r
}

/// Appends all of `b` to `a`.
pub fn extend(a: &mut Vec<char>, b: &Vec<char>)
    ensures
        final(a)@ == old(a)@ + b@,
{
    let mut j: usize = 0;
    while j < b.len()
        invariant
            j <= b@.len(),
            a@ == old(a)@ + b@.subrange(0, j as int),
        decreases b@.len() - j,
    {
        a.push(b[j]);
        j = j + 1;
        assert(a@ =~= old(a)@ + b@.subrange(0, j as int));
    }
    assert(b@.subrange(0, b@.len() as int) =~= b@);
}

/// Appends the characters of `s` to `a`.
pub fn extend_str(a: &mut Vec<char>, s: &str)
    ensures
        final(a)@ == old(a)@ + s@,
{
    let v = chars_of(s);
    extend(a, &v);
}

/// Whether two character vectors are equal.
pub fn same(a: &Vec<char>, b: &Vec<char>) -> (r: bool)
    ensures
        r == (a@ == b@),
{
    if a.len() != b.len() {
        return false;
    }
    let mut j: usize = 0;
    while j < a.len()
        invariant
            a@.len() == b@.len(),
            j <= a@.len(),
            forall|k: int| 0 <= k < j ==> a@[k] == b@[k],
        decreases a@.len() - j,
    {
        if a[j] != b[j] {
            return false;
        }
        j = j + 1;
    }
    assert(a@ =~= b@);
    true
}

/// Whether a character vector spells the string `s`.
pub fn same_str(a: &Vec<char>, s: &str) -> (r: bool)
    ensures
        r == (a@ == s@),
{
    let v = chars_of(s);
    same(a, &v)
}

/// Whether `c` occurs in `a`.
pub fn has_char(a: &Vec<char>, ch: char) -> (r: bool)
    ensures
        r == a@.contains(ch),
{
    let mut j: usize = 0;
    while j < a.len()
        invariant
            j <= a@.len(),
            forall|k: int| 0 <= k < j ==> a@[k] != ch,
        decreases a@.len() - j,
    {
        if a[j] == ch {
            assert(a@[j as int] == ch);
            return true;
        }
        j = j + 1;
    }
    false
}


/// The first position at or after `i` that is not whitespace, or the length.
pub open spec fn ws_start(c: Seq<char>, i: int) -> int
    decreases c.len() - i,
{
    if i >= c.len() {
        c.len() as int
    } else if whitespace(c[i]) {
        ws_start(c, i + 1)
    } else {
        i
    }
}

/// Going back from `j`: the position after the last non-whitespace character
/// before `j`, or zero.
pub open spec fn ws_end(c: Seq<char>, j: int) -> int
    decreases j,
{
    if j <= 0 {
        0
    } else if whitespace(c[j - 1]) {
        ws_end(c, j - 1)
    } else {
        j
    }
}

/// `str::trim`: without leading and trailing whitespace.
pub open spec fn trimmed(c: Seq<char>) -> Seq<char> {
    let a = ws_start(c, 0);
    let b = ws_end(c, c.len() as int);
    if a >= b {
        seq![]
    } else {
        c.subrange(a, b)
    }
}

/// `str::trim_start`: without leading whitespace.
pub open spec fn trimmed_start(c: Seq<char>) -> Seq<char> {
    c.subrange(ws_start(c, 0), c.len() as int)
}

/// The last position before `j` that holds `ch`, or -1.
pub open spec fn last_of(c: Seq<char>, j: int, ch: char) -> int
    decreases j,
{
    if j <= 0 {
        -1
    } else if c[j - 1] == ch {
        j - 1
    } else {
        last_of(c, j - 1, ch)
    }
}

/// How often `ch` occurs in `c`.
pub open spec fn count_of(c: Seq<char>, ch: char) -> nat
    decreases c.len(),
{
    if c.len() == 0 {
        0
    } else {
        count_of(c.drop_last(), ch) + (if c.last() == ch {
            1nat
        } else {
            0nat
        })
    }
}

/// `p` is a prefix of `c`.
pub open spec fn starts_with(c: Seq<char>, p: Seq<char>) -> bool {
    p.len() <= c.len() && c.subrange(0, p.len() as int) == p
}

/// The pieces of `c` from `i` on between occurrences of `ch` (`str::split`).
pub open spec fn split_from(c: Seq<char>, i: int, ch: char) -> Seq<Seq<char>>
    decreases c.len() - i,
{
    let j = first_from(c, i, ch);
    if i < 0 || i > c.len() || j >= c.len() || j < i {
        seq![c.subrange(i, c.len() as int)]
    } else {
        seq![c.subrange(i, j)] + split_from(c, j + 1, ch)
    }
}

/// The decimal digit character of `d`.
pub open spec fn digit_char(d: nat) -> char {
    if d == 0 { '0' }
    else if d == 1 { '1' }
    else if d == 2 { '2' }
    else if d == 3 { '3' }
    else if d == 4 { '4' }
    else if d == 5 { '5' }
    else if d == 6 { '6' }
    else if d == 7 { '7' }
    else if d == 8 { '8' }
    else { '9' }
}

/// The decimal numeral of `n`.
pub open spec fn decimal(n: nat) -> Seq<char>
    decreases n,
{
    if n < 10 {
        seq![digit_char(n)]
    } else {
        decimal(n / 10) + seq![digit_char(n % 10)]
    }
}

pub proof fn lemma_ws_start(c: Seq<char>, i: int)
    requires
        0 <= i <= c.len(),
    ensures
        i <= ws_start(c, i) <= c.len(),
        ws_start(c, i) < c.len() ==> !whitespace(c[ws_start(c, i)]),
        forall|k: int| i <= k < ws_start(c, i) ==> whitespace(c[k]),
    decreases c.len() - i,
{
    if i < c.len() && whitespace(c[i]) {
        lemma_ws_start(c, i + 1);
    }
}

pub proof fn lemma_ws_end(c: Seq<char>, j: int)
    requires
        0 <= j <= c.len(),
    ensures
        0 <= ws_end(c, j) <= j,
        ws_end(c, j) > 0 ==> !whitespace(c[ws_end(c, j) - 1]),
        forall|k: int| ws_end(c, j) <= k < j ==> whitespace(c[k]),
    decreases j,
{
    if j > 0 && whitespace(c[j - 1]) {
        lemma_ws_end(c, j - 1);
    }
}

/// The text between `a` and `b` is what trimming keeps when only whitespace
/// lies outside it and it neither starts nor ends with whitespace.
pub proof fn lemma_trimmed_between(c: Seq<char>, a: int, b: int)
    requires
        0 <= a < b <= c.len(),
        forall|k: int| 0 <= k < a ==> whitespace(#[trigger] c[k]),
        forall|k: int| b <= k < c.len() ==> whitespace(#[trigger] c[k]),
        !whitespace(c[a]),
        !whitespace(c[b - 1]),
    ensures
        trimmed(c) == c.subrange(a, b),
{
    lemma_ws_start(c, 0);
    lemma_ws_end(c, c.len() as int);
    let s0 = ws_start(c, 0);
    let e0 = ws_end(c, c.len() as int);
    if s0 > a {
        assert(whitespace(c[a]));
    }
    if s0 < a {
        assert(whitespace(c[s0]));
    }
    if e0 < b {
        assert(whitespace(c[b - 1]));
    }
    if e0 > b {
        assert(whitespace(c[e0 - 1]));
    }
}

/// Where no parenthesis comes before the `)` at `k`, that `)` closes the
/// one open parenthesis.
pub proof fn lemma_plain_close(c: Seq<char>, i: int, k: int)
    requires
        0 <= i <= k < c.len(),
        forall|t: int| i <= t < k ==> #[trigger] c[t] != '(' && c[t] != ')',
        c[k] == ')',
    ensures
        paren_close(c, i, 1) == k,
    decreases k - i,
{
    if i < k {
        assert(c[i] != '(' && c[i] != ')');
        lemma_plain_close(c, i + 1, k);
    }
}

pub proof fn lemma_last_of(c: Seq<char>, j: int, ch: char)
    requires
        0 <= j <= c.len(),
    ensures
        -1 <= last_of(c, j, ch) < j,
        last_of(c, j, ch) >= 0 ==> c[last_of(c, j, ch)] == ch,
        forall|k: int| last_of(c, j, ch) < k < j ==> c[k] != ch,
    decreases j,
{
    if j > 0 && c[j - 1] != ch {
        lemma_last_of(c, j - 1, ch);
    }
}

pub fn trim(c: &Vec<char>) -> (r: Vec<char>)
    ensures
        r@ == trimmed(c@),
{
    let n = c.len();
    let mut a: usize = 0;
    while a < n && is_whitespace(c[a])
        invariant
            n == c@.len(),
            a <= n,
            ws_start(c@, 0) == ws_start(c@, a as int),
        decreases n - a,
    {
        a = a + 1;
    }
    let mut b: usize = n;
    while b > 0 && is_whitespace(c[b - 1])
        invariant
            n == c@.len(),
            b <= n,
            ws_end(c@, n as int) == ws_end(c@, b as int),
        decreases b,
    {
        b = b - 1;
    }
    if a >= b {
        Vec::new()
    } else {
        slice(c, a, b)
    }
}

pub fn trim_start(c: &Vec<char>) -> (r: Vec<char>)
    ensures
        r@ == trimmed_start(c@),
{
    let n = c.len();
    let mut a: usize = 0;
    while a < n && is_whitespace(c[a])
        invariant
            n == c@.len(),
            a <= n,
            ws_start(c@, 0) == ws_start(c@, a as int),
        decreases n - a,
    {
        a = a + 1;
    }
    slice(c, a, n)
}

/// `str::rfind` of a character: the last position of `ch`.
pub fn rfind(c: &Vec<char>, ch: char) -> (r: Option<usize>)
    ensures
        match r {
            Some(k) => k as int == last_of(c@, c@.len() as int, ch) && k >= 0,
            None => last_of(c@, c@.len() as int, ch) == -1,
        },
{
    let mut j: usize = c.len();
    while j > 0
        invariant
            j <= c@.len(),
            last_of(c@, c@.len() as int, ch) == last_of(c@, j as int, ch),
        decreases j,
    {
        if c[j - 1] == ch {
            return Some(j - 1);
        }
        j = j - 1;
    }
    None
}

pub fn count_char(c: &Vec<char>, ch: char) -> (r: usize)
    ensures
        r == count_of(c@, ch),
{
    let mut r: usize = 0;
    let mut j: usize = 0;
    while j < c.len()
        invariant
            j <= c@.len(),
            r <= j,
            r == count_of(c@.subrange(0, j as int), ch),
        decreases c@.len() - j,
    {
        assert(c@.subrange(0, j as int + 1).drop_last() =~= c@.subrange(0, j as int));
        if c[j] == ch {
            r = r + 1;
        }
        j = j + 1;
    }
    assert(c@.subrange(0, c@.len() as int) =~= c@);
    r
}

pub fn starts_with_str(c: &Vec<char>, p: &str) -> (r: bool)
    ensures
        r == starts_with(c@, p@),
{
    let pv = chars_of(p);
    if pv.len() > c.len() {
        return false;
    }
    let head = slice(c, 0, pv.len());
    same(&head, &pv)
}

/// `str::split` at a character.
pub fn split_char(c: &Vec<char>, ch: char) -> (r: Vec<Vec<char>>)
    ensures
        r@.len() == split_from(c@, 0, ch).len(),
        forall|k: int| 0 <= k < r@.len() ==> (#[trigger] r@[k])@ == split_from(c@, 0, ch)[k],
{
    let mut r: Vec<Vec<char>> = Vec::new();
    let mut i: usize = 0;
    let n = c.len();
    loop
        invariant
            n == c@.len(),
            i <= n,
            split_from(c@, 0, ch).len() == r@.len() + split_from(c@, i as int, ch).len(),
            forall|k: int| 0 <= k < r@.len() ==> (#[trigger] r@[k])@ == split_from(c@, 0, ch)[k],
            forall|k: int| 0 <= k < split_from(c@, i as int, ch).len() ==> #[trigger] split_from(c@, i as int, ch)[k] == split_from(c@, 0, ch)[r@.len() + k],
        decreases n - i,
    {
        let j = find_from(c, i, ch);
        proof {
            lemma_first_from(c@, i as int, ch);
        }
        let piece = slice(c, i, j);
        let ghost before = r@.len();
        assert(split_from(c@, i as int, ch)[0] == piece@);
        r.push(piece);
        if j >= n {
            assert(split_from(c@, i as int, ch).len() == 1);
            return r;
        }
        assert forall|k: int| 0 <= k < split_from(c@, j as int + 1, ch).len() implies #[trigger] split_from(c@, j as int + 1, ch)[k] == split_from(c@, 0, ch)[r@.len() + k] by {
            assert(split_from(c@, i as int, ch)[k + 1] == split_from(c@, j as int + 1, ch)[k]);
        }
        i = j + 1;
    }
}

/// The decimal numeral of `n`.
pub fn decimal_text(n: usize) -> (r: Vec<char>)
    ensures
        r@ == decimal(n as nat),
    decreases n,
{
    let d = n % 10;
    let dc = if d == 0 { '0' }
        else if d == 1 { '1' }
        else if d == 2 { '2' }
        else if d == 3 { '3' }
        else if d == 4 { '4' }
        else if d == 5 { '5' }
        else if d == 6 { '6' }
        else if d == 7 { '7' }
        else if d == 8 { '8' }
        else { '9' };
    if n < 10 {
        let mut r: Vec<char> = Vec::new();
        r.push(dc);
        assert(r@ =~= decimal(n as nat));
        r
    } else {
        let mut r = decimal_text(n / 10);
        r.push(dc);
        assert(r@ =~= decimal(n as nat));
        r
    }
}


/// The value of a decimal digit character.
pub open spec fn digit_value(c: char) -> nat {
    ((c as int) - ('0' as int)) as nat
}

/// The value of a sequence of decimal digits.
pub open spec fn digits_value(d: Seq<char>) -> nat
    decreases d.len(),
{
    if d.len() == 0 {
        0
    } else {
        digits_value(d.drop_last()) * 10 + digit_value(d.last())
    }
}

/// All characters are ASCII digits.
pub open spec fn all_digits(d: Seq<char>) -> bool {
    forall|k: int| 0 <= k < d.len() ==> is_digit(#[trigger] d[k])
}

/// `usize::from_str`: an optional `+`, then at least one digit, and a value
/// that fits.
pub open spec fn parsed_usize(s: Seq<char>) -> Option<nat> {
    let d = if s.len() > 0 && s[0] == '+' {
        s.subrange(1, s.len() as int)
    } else {
        s
    };
    if d.len() == 0 || !all_digits(d) || digits_value(d) > usize::MAX {
        None
    } else {
        Some(digits_value(d))
    }
}

pub proof fn lemma_digits_grow(d: Seq<char>, k: int)
    requires
        0 <= k <= d.len(),
    ensures
        digits_value(d.subrange(0, k)) <= digits_value(d),
    decreases d.len() - k,
{
    if k < d.len() {
        lemma_digits_grow(d, k + 1);
        let p = d.subrange(0, k + 1);
        assert(p.drop_last() =~= d.subrange(0, k));
        assert(digits_value(p) == digits_value(d.subrange(0, k)) * 10 + digit_value(p.last()));
    } else {
        assert(d.subrange(0, k) =~= d);
    }
}

/// Reads a `usize` as `str::parse` does.
pub fn parse_usize(c: &Vec<char>) -> (r: Option<usize>)
    ensures
        match r {
            Some(n) => parsed_usize(c@) == Some(n as nat),
            None => parsed_usize(c@) is None,
        },
{
    let d = if c.len() > 0 && c[0] == '+' {
        slice(c, 1, c.len())
    } else {
        slice(c, 0, c.len())
    };
    assert(c@.subrange(0, c@.len() as int) =~= c@);
    if d.len() == 0 {
        return None;
    }
    let mut k: usize = 0;
    while k < d.len()
        invariant
            k <= d@.len(),
            d@ == (if c@.len() > 0 && c@[0] == '+' { c@.subrange(1, c@.len() as int) } else { c@ }),
            forall|j: int| 0 <= j < k ==> is_digit(#[trigger] d@[j]),
        decreases d@.len() - k,
    {
        if !digit(d[k]) {
            assert(!all_digits(d@));
            return None;
        }
        k = k + 1;
    }
    assert(all_digits(d@));
    let mut acc: usize = 0;
    let mut i: usize = 0;
    while i < d.len()
        invariant
            i <= d@.len(),
            d@ == (if c@.len() > 0 && c@[0] == '+' { c@.subrange(1, c@.len() as int) } else { c@ }),
            all_digits(d@),
            acc == digits_value(d@.subrange(0, i as int)),
        decreases d@.len() - i,
    {
        let ch = d[i];
        assert(is_digit(d@[i as int]));
        let dv = (ch as u32 - '0' as u32) as usize;
        let ghost p = d@.subrange(0, i as int + 1);
        assert(p.drop_last() =~= d@.subrange(0, i as int));
        assert(digits_value(p) == acc * 10 + dv);
        match acc.checked_mul(10) {
            Some(m) => match m.checked_add(dv) {
                Some(a) => {
                    acc = a;
                },
                None => {
                    proof {
                        lemma_digits_grow(d@, i as int + 1);
                    }
                    return None;
                },
            },
            None => {
                proof {
                    lemma_digits_grow(d@, i as int + 1);
                }
                return None;
            },
        }
        i = i + 1;
    }
    assert(d@.subrange(0, d@.len() as int) =~= d@);
    Some(acc)
}

} // verus!
