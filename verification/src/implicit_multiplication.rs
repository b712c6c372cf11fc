//! Writing out the multiplications that an expression leaves implicit.
use vstd::prelude::*;
use crate::text::{
    alphabetic, alphanumeric, whitespace, is_digit, is_ascii_char, is_alphabetic, is_alphanumeric,
    is_whitespace, digit, ascii_char, chars_of, string_of,
};

verus! {

/// The text without its whitespace.
pub open spec fn without_spaces(s: Seq<char>) -> Seq<char>
    decreases s.len(),
{
    if s.len() == 0 {
        seq![]
    } else {
        without_spaces(s.drop_last()) + (if whitespace(s.last()) {
            seq![]
        } else {
            seq![s.last()]
        })
    }
}

/// After `]` or `)`, the next character starts a new factor.
pub open spec fn starts_factor_after_close(n: char) -> bool {
    alphanumeric(n) || !is_ascii_char(n) || n == '(' || n == '[' || n == '.'
}

/// What a character outside brackets adds after itself, seeing the next one.
pub open spec fn after_char(c: char, n: char) -> Seq<char> {
    (if (is_digit(c) || c == '.') && (alphabetic(n) || !is_ascii_char(n)) {
        seq!['*']
    } else {
        seq![]
    }) + (if is_digit(c) && (n == '(' || n == '[') {
        seq!['*']
    } else {
        seq![]
    }) + (if c == ')' && starts_factor_after_close(n) {
        seq!['*']
    } else {
        seq![]
    }) + (if !is_digit(c) && n == '.' {
        seq!['0']
    } else {
        seq![]
    })
}

/// The output and bracket depth after the first `k` characters of `f`.
pub open spec fn implicit_state(f: Seq<char>, k: nat) -> (Seq<char>, int)
    decreases k,
{
    if k == 0 {
        (if f.len() > 0 && f[0] == '.' {
            seq!['0']
        } else {
            seq![]
        }, 0)
    } else {
        let (out, d) = implicit_state(f, (k - 1) as nat);
        let i = k - 1;
        let c = f[i];
        let has_next = i + 1 < f.len();
        if c == '[' {
            (out + (if out.len() > 0 && (is_digit(out.last()) || out.last() == ')') {
                seq!['*']
            } else {
                seq![]
            }) + seq!['['], d + 1)
        } else if c == ']' {
            (out + seq![']'] + (if has_next && starts_factor_after_close(f[i + 1]) {
                seq!['*']
            } else {
                seq![]
            }), d - 1)
        } else if d > 0 || !has_next {
            (out + seq![c], d)
        } else {
            (out + seq![c] + after_char(c, f[i + 1]), d)
        }
    }
}

/// The expression with whitespace removed and each implicit product written
/// with `*`; a `.` that starts a number gets a leading `0`.
pub open spec fn implicit_multiplication(s: Seq<char>) -> Seq<char> {
    let f = without_spaces(s);
    implicit_state(f, f.len()).0
}

pub fn remove_spaces_of(c: &Vec<char>) -> (r: Vec<char>)
    ensures
        r@ == without_spaces(c@),
{
    let mut r: Vec<char> = Vec::new();
    let mut i: usize = 0;
    while i < c.len()
        invariant
            i <= c@.len(),
            r@ == without_spaces(c@.subrange(0, i as int)),
        decreases c@.len() - i,
    {
        let ch = c[i];
        let ghost pre = c@.subrange(0, i as int + 1);
        assert(pre.drop_last() =~= c@.subrange(0, i as int));
        if !is_whitespace(ch) {
            r.push(ch);
        }
        i = i + 1;
        assert(r@ =~= without_spaces(pre));
    }
    assert(c@.subrange(0, c@.len() as int) =~= c@);
    r
}

/// Inserts the implicit multiplications of an expression.
pub fn insert_implicit_multiplication(input: &str) -> (r: String)
    ensures
        r@ == implicit_multiplication(input@),
{
    let all = chars_of(input);
    let f = remove_spaces_of(&all);
    let n = f.len();
    let mut out: Vec<char> = Vec::new();
    if n > 0 && f[0] == '.' {
        out.push('0');
    }
    assert(out@ =~= implicit_state(f@, 0).0);
    let mut opens: usize = 0;
    let mut closes: usize = 0;
    let mut k: usize = 0;
    while k < n
        invariant
            n == f@.len(),
            k <= n,
            opens + closes <= k,
            implicit_state(f@, k as nat) == (out@, opens - closes),
        decreases n - k,
    {
        let c = f[k];
        let ghost old_out = out@;
        let has_next = k + 1 < n;
        if c == '[' {
            if out.len() > 0 {
                let last = out[out.len() - 1];
                if digit(last) || last == ')' {
                    out.push('*');
                }
            }
            out.push('[');
            opens = opens + 1;
        } else if c == ']' {
            out.push(']');
            closes = closes + 1;
            if has_next {
                let nx = f[k + 1];
                if is_alphanumeric(nx) || !ascii_char(nx) || nx == '(' || nx == '[' || nx == '.' {
                    out.push('*');
                }
            }
        } else if opens > closes || !has_next {
            out.push(c);
        } else {
            let nx = f[k + 1];
            out.push(c);
            let ghost mid = out@;
            if (digit(c) || c == '.') && (is_alphabetic(nx) || !ascii_char(nx)) {
                out.push('*');
            }
            if digit(c) && (nx == '(' || nx == '[') {
                out.push('*');
            }
            if c == ')' && (is_alphanumeric(nx) || !ascii_char(nx) || nx == '(' || nx == '[' || nx == '.') {
                out.push('*');
            }
            if !digit(c) && nx == '.' {
                out.push('0');
            }
            assert(out@ =~= mid + after_char(c, nx));
        }
        k = k + 1;
        assert(implicit_state(f@, k as nat) =~= (out@, opens - closes));
    }
    string_of(&out)
}

} // verus!

verus! {

proof fn lemma_without_spaces_push(s: Seq<char>, c: char)
    requires
        !whitespace(c),
    ensures
        without_spaces(s.push(c)) == without_spaces(s).push(c),
{
    assert(s.push(c).drop_last() =~= s);
    assert(without_spaces(s) + seq![c] =~= without_spaces(s).push(c));
}

proof fn lemma_without_spaces_from(s: Seq<char>, x: char)
    ensures
        without_spaces(s).contains(x) ==> s.contains(x),
    decreases s.len(),
{
    if s.len() > 0 {
        lemma_without_spaces_from(s.drop_last(), x);
        let w = without_spaces(s.drop_last());
        if without_spaces(s).contains(x) {
            let k = choose|k: int| 0 <= k < without_spaces(s).len() && without_spaces(s)[k] == x;
            if k < w.len() {
                assert(w[k] == x);
                assert(w.contains(x));
                let j = choose|j: int| 0 <= j < s.drop_last().len() && s.drop_last()[j] == x;
                assert(s[j] == x);
            } else {
                assert(s[s.len() - 1] == x);
            }
        }
    }
}

/// With no bracket among the first `k` characters, the depth stays zero.
proof fn lemma_depth_zero(f: Seq<char>, k: nat)
    requires
        k <= f.len(),
        forall|i: int| 0 <= i < k ==> #[trigger] f[i] != '[' && f[i] != ']',
    ensures
        implicit_state(f, k).1 == 0,
    decreases k,
{
    if k > 0 {
        lemma_depth_zero(f, (k - 1) as nat);
    }
}

/// The state after `k` characters depends only on the first `k + 1`.
proof fn lemma_state_prefix(f: Seq<char>, g: Seq<char>, k: nat)
    requires
        k < f.len(),
        k < g.len(),
        forall|i: int| 0 <= i <= k ==> #[trigger] f[i] == g[i],
    ensures
        implicit_state(f, k) == implicit_state(g, k),
    decreases k,
{
    if k > 0 {
        lemma_state_prefix(f, g, (k - 1) as nat);
    } else {
        assert(f[0] == g[0]);
    }
}

/// Appending `c` and `n` to a text without brackets: `c` is followed by what
/// it adds before `n`.
proof fn lemma_append_pair(p: Seq<char>, c: char, n: char)
    requires
        !p.contains('['),
        !p.contains(']'),
        c != '[' && c != ']',
        n != '[' && n != ']',
        !whitespace(c),
        !whitespace(n),
    ensures
        implicit_multiplication(p + seq![c, n]) == implicit_multiplication(p.push(c)) + after_char(c, n) + seq![n],
{
    assert(p + seq![c, n] =~= p.push(c).push(n));
    lemma_without_spaces_push(p, c);
    lemma_without_spaces_push(p.push(c), n);
    let w = without_spaces(p);
    lemma_without_spaces_from(p, '[');
    lemma_without_spaces_from(p, ']');
    let f1 = w.push(c).push(n);
    let f2 = w.push(c);
    let k = w.len();
    assert forall|i: int| 0 <= i < k implies #[trigger] f1[i] != '[' && f1[i] != ']' by {
        assert(f1[i] == w[i]);
        if f1[i] == '[' {
            assert(w.contains('['));
        }
        if f1[i] == ']' {
            assert(w.contains(']'));
        }
    }
    lemma_depth_zero(f1, k);
    lemma_state_prefix(f1, f2, k);
    let (out, dep) = implicit_state(f1, k);
    assert(f1[k as int] == c && f1[k + 1 as int] == n && f2[k as int] == c);
    assert(implicit_state(f1, k + 1).0 == out + seq![c] + after_char(c, n));
    assert(implicit_state(f1, k + 2).0 == implicit_state(f1, k + 1).0 + seq![n]);
    assert(implicit_state(f2, k + 1).0 == out + seq![c]);
    assert(f1.len() == k + 2 && f2.len() == k + 1);
    assert(implicit_state(f1, k + 2).0 =~= implicit_state(f2, k + 1).0 + after_char(c, n) + seq![n]);
}

/// A digit right after a closing parenthesis, outside brackets, is a new
/// factor: appending it to a text that ends in `)` adds `*` and the digit.
pub proof fn digit_after_close_is_multiplied(p: Seq<char>, d: char)
    requires
        is_digit(d),
        !p.contains('['),
        !p.contains(']'),
    ensures
        implicit_multiplication(p + seq![')', d]) == implicit_multiplication(p.push(')')) + seq!['*', d],
{
    lemma_append_pair(p, ')', d);
    assert(after_char(')', d) =~= seq!['*']);
    assert(seq!['*'] + seq![d] =~= seq!['*', d]);
    assert(implicit_multiplication(p.push(')')) + seq!['*'] + seq![d] =~= implicit_multiplication(p.push(')')) + seq!['*', d]);
}

/// After a closing parenthesis, outside brackets, a character that starts a
/// new factor gets `*` before it (a `.` also gets its leading `0`), and any
/// other character follows with nothing added.
pub proof fn close_paren_followers(p: Seq<char>, n: char)
    requires
        !p.contains('['),
        !p.contains(']'),
        n != '[' && n != ']',
        !whitespace(n),
    ensures
        starts_factor_after_close(n) && n != '.' ==> implicit_multiplication(p + seq![')', n])
            == implicit_multiplication(p.push(')')) + seq!['*', n],
        n == '.' ==> implicit_multiplication(p + seq![')', n]) == implicit_multiplication(p.push(')')) + seq!['*', '0', '.'],
        !starts_factor_after_close(n) ==> implicit_multiplication(p + seq![')', n])
            == implicit_multiplication(p.push(')')) + seq![n],
{
    assert(!whitespace(')'));
    lemma_append_pair(p, ')', n);
    let q = implicit_multiplication(p.push(')'));
    if starts_factor_after_close(n) && n != '.' {
        assert(after_char(')', n) =~= seq!['*']);
        assert(q + seq!['*'] + seq![n] =~= q + seq!['*', n]);
    } else if n == '.' {
        assert(after_char(')', n) =~= seq!['*', '0']);
        assert(q + seq!['*', '0'] + seq![n] =~= q + seq!['*', '0', '.']);
    } else {
        assert(after_char(')', n) =~= Seq::<char>::empty());
        assert(q + Seq::<char>::empty() + seq![n] =~= q + seq![n]);
    }
}

/// A letter right after a digit, or a parenthesis right after a closing one,
/// outside brackets, is a new factor: `*` goes between them.
pub proof fn juxtaposed_factors_are_multiplied(p: Seq<char>, d: char, x: char)
    requires
        is_digit(d),
        crate::text::is_ascii_letter(x),
        !p.contains('['),
        !p.contains(']'),
    ensures
        implicit_multiplication(p + seq![d, x]) == implicit_multiplication(p.push(d)) + seq!['*', x],
        implicit_multiplication(p + seq![')', '(']) == implicit_multiplication(p.push(')')) + seq!['*', '('],
        implicit_multiplication(p + seq![d, '(']) == implicit_multiplication(p.push(d)) + seq!['*', '('],
{
    lemma_append_pair(p, d, x);
    assert(after_char(d, x) =~= seq!['*']);
    assert(implicit_multiplication(p.push(d)) + seq!['*'] + seq![x] =~= implicit_multiplication(p.push(d)) + seq!['*', x]);
    lemma_append_pair(p, ')', '(');
    assert(after_char(')', '(') =~= seq!['*']);
    assert(implicit_multiplication(p.push(')')) + seq!['*'] + seq!['('] =~= implicit_multiplication(p.push(')')) + seq!['*', '(']);
    lemma_append_pair(p, d, '(');
    assert(after_char(d, '(') =~= seq!['*']);
    assert(implicit_multiplication(p.push(d)) + seq!['*'] + seq!['('] =~= implicit_multiplication(p.push(d)) + seq!['*', '(']);
}

} // verus!
