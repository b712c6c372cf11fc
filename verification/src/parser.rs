//! Rewriting of names in an expression: line references, variables and
//! calls are put in brackets so that later stages keep them apart.
use vstd::prelude::*;
use crate::VARIABLE_SEPARATOR;
use crate::text::{alphabetic, alphanumeric, is_alphabetic, string_of};
use crate::chars::{
    first_from, alpha_end, alnum_end, digit_end, paren_close, lemma_first_from, lemma_alpha_end,
    lemma_alnum_end, lemma_digit_end, lemma_paren_close, find_from, scan_alpha, scan_alnum,
    scan_digits, scan_paren_close, slice, extend, same, same_str,
};
use crate::eval_context::EvalContext;
use crate::maps::{var_contains, func_contains, key_set, has_key};
use crate::text::chars_of;

verus! {

/// The position after the bracket group that opens at `i`: after the first
/// `]` that follows, or the end of the text.
pub open spec fn bracket_end(c: Seq<char>, i: int) -> int {
    let j = first_from(c, i + 1, ']');
    if j < c.len() {
        j + 1
    } else {
        c.len() as int
    }
}

pub proof fn lemma_bracket_end(c: Seq<char>, i: int)
    requires
        0 <= i < c.len(),
    ensures
        i < bracket_end(c, i) <= c.len(),
{
    lemma_first_from(c, i + 1, ']');
}

/// Where a line reference `lin_<digits>` that starts at `i` ends, or -1.
pub open spec fn line_ref_end(c: Seq<char>, i: int) -> int {
    if 0 <= i && i + 3 < c.len() && c[i] == 'l' && c[i + 1] == 'i' && c[i + 2] == 'n' && c[i + 3]
        == VARIABLE_SEPARATOR && digit_end(c, i + 4) > i + 4 {
        digit_end(c, i + 4)
    } else {
        -1
    }
}

/// `c` from position `i` on with each line reference put in brackets;
/// bracket groups are copied as they are.
pub open spec fn line_patterns_from(c: Seq<char>, i: int) -> Seq<char>
    decreases c.len() - i,
{
    if i < 0 || i >= c.len() {
        seq![]
    } else if c[i] == '[' {
        proof {
            lemma_bracket_end(c, i);
        }
        c.subrange(i, bracket_end(c, i)) + line_patterns_from(c, bracket_end(c, i))
    } else if line_ref_end(c, i) >= 0 {
        let e = line_ref_end(c, i);
        proof {
            lemma_digit_end(c, i + 4);
        }
        seq!['[', 'l', 'i', 'n', VARIABLE_SEPARATOR] + c.subrange(i + 4, e) + seq![']']
            + line_patterns_from(c, e)
    } else {
        seq![c[i]] + line_patterns_from(c, i + 1)
    }
}

/// The names of the functions that evaluation knows without definition.
pub open spec fn known_function(w: Seq<char>) -> bool {
    ||| w == "sqrt"@
    ||| w == "exp"@
    ||| w == "ln"@
    ||| w == "abs"@
    ||| w == "sin"@
    ||| w == "cos"@
    ||| w == "tan"@
    ||| w == "asin"@
    ||| w == "acos"@
    ||| w == "atan"@
    ||| w == "sinh"@
    ||| w == "cosh"@
    ||| w == "tanh"@
    ||| w == "asinh"@
    ||| w == "acosh"@
    ||| w == "atanh"@
    ||| w == "floor"@
    ||| w == "ceil"@
    ||| w == "round"@
    ||| w == "signum"@
    ||| w == "max"@
    ||| w == "min"@
}

/// Whether `w` names a function that evaluation knows without definition.
pub fn is_known_function(w: &Vec<char>) -> (b: bool)
    ensures
        b == known_function(w@),
{
    same_str(w, "sqrt") || same_str(w, "exp") || same_str(w, "ln") || same_str(w, "abs")
        || same_str(w, "sin") || same_str(w, "cos") || same_str(w, "tan") || same_str(w, "asin")
        || same_str(w, "acos") || same_str(w, "atan") || same_str(w, "sinh") || same_str(
        w,
        "cosh",
    ) || same_str(w, "tanh") || same_str(w, "asinh") || same_str(w, "acosh") || same_str(
        w,
        "atanh",
    ) || same_str(w, "floor") || same_str(w, "ceil") || same_str(w, "round") || same_str(
        w,
        "signum",
    ) || same_str(w, "max") || same_str(w, "min")
}

/// A letter at `i` that does not follow another letter.
pub open spec fn at_word_start(c: Seq<char>, i: int) -> bool {
    i == 0 || !alphabetic(c[i - 1])
}

/// The run of letters that starts at `i`.
pub open spec fn word_at(c: Seq<char>, i: int) -> Seq<char> {
    c.subrange(i, alpha_end(c, i))
}

/// At `i` starts a call of a known or defined function with a name of letters.
pub open spec fn word_call(c: Seq<char>, i: int, funcs: Set<Seq<char>>) -> bool {
    let t = alpha_end(c, i);
    &&& at_word_start(c, i)
    &&& (known_function(word_at(c, i)) || funcs.contains(word_at(c, i)))
    &&& t < c.len()
    &&& c[t] == '('
}

/// At `i` stands a defined variable whose name is several letters.
pub open spec fn word_var(c: Seq<char>, i: int, vars: Set<Seq<char>>) -> bool {
    let t = alpha_end(c, i);
    &&& at_word_start(c, i)
    &&& !(t < c.len() && c[t] == VARIABLE_SEPARATOR)
    &&& word_at(c, i).len() > 1
    &&& vars.contains(word_at(c, i))
}

/// At `i` stands a one-letter defined function followed by `(`.
pub open spec fn letter_call(c: Seq<char>, i: int, funcs: Set<Seq<char>>) -> bool {
    i + 1 < c.len() && c[i + 1] == '(' && funcs.contains(seq![c[i]])
}

/// At `i` stands a letter followed by the separator.
pub open spec fn letter_sub(c: Seq<char>, i: int) -> bool {
    i + 1 < c.len() && c[i + 1] == VARIABLE_SEPARATOR
}

/// The position of the `)` that closes the `(` at `open`, or the end.
pub open spec fn call_close(c: Seq<char>, open: int) -> int {
    paren_close(c, open + 1, 1)
}

/// The argument text of the call whose `(` is at `open`.
pub open spec fn call_arg(c: Seq<char>, open: int) -> Seq<char> {
    c.subrange(open + 1, call_close(c, open))
}

/// The position after the call whose `(` is at `open`.
pub open spec fn call_next(c: Seq<char>, open: int) -> int {
    if call_close(c, open) < c.len() {
        call_close(c, open) + 1
    } else {
        call_close(c, open)
    }
}

pub proof fn lemma_call(c: Seq<char>, open: int)
    requires
        0 <= open < c.len(),
    ensures
        open + 1 <= call_close(c, open) <= c.len(),
        open < call_next(c, open) <= c.len(),
        call_arg(c, open).len() < c.len(),
        call_close(c, open) < c.len() ==> c[call_close(c, open)] == ')',
{
    lemma_paren_close(c, open + 1, 1);
}

/// The position of the subscript after `letter` and separator at `i`.
pub open spec fn sub_start(i: int) -> int {
    i + 2
}

pub open spec fn sub_end(c: Seq<char>, i: int) -> int {
    alnum_end(c, i + 2)
}

/// A subscripted name at `i` is followed by a call.
pub open spec fn sub_call(c: Seq<char>, i: int) -> bool {
    sub_end(c, i) < c.len() && c[sub_end(c, i)] == '('
}

/// Where processing continues after the name that starts at `i`.
pub open spec fn definitions_next(c: Seq<char>, i: int, vars: Set<Seq<char>>, funcs: Set<Seq<char>>) -> int {
    if c[i] == '[' {
        bracket_end(c, i)
    } else if alphabetic(c[i]) {
        if word_call(c, i, funcs) {
            call_next(c, alpha_end(c, i))
        } else if word_var(c, i, vars) {
            alpha_end(c, i)
        } else if letter_call(c, i, funcs) {
            call_next(c, i + 1)
        } else if letter_sub(c, i) {
            if sub_end(c, i) == i + 2 {
                i + 2
            } else if sub_call(c, i) {
                call_next(c, sub_end(c, i))
            } else {
                sub_end(c, i)
            }
        } else {
            i + 1
        }
    } else {
        i + 1
    }
}

pub proof fn lemma_definitions_next(c: Seq<char>, i: int, vars: Set<Seq<char>>, funcs: Set<Seq<char>>)
    requires
        0 <= i < c.len(),
    ensures
        i < definitions_next(c, i, vars, funcs) <= c.len(),
{
    if c[i] == '[' {
        lemma_bracket_end(c, i);
    } else if alphabetic(c[i]) {
        lemma_alpha_end(c, i);
        if word_call(c, i, funcs) {
            lemma_call(c, alpha_end(c, i));
        } else if word_var(c, i, vars) {
        } else if letter_call(c, i, funcs) {
            lemma_call(c, i + 1);
        } else if letter_sub(c, i) {
            lemma_alnum_end(c, i + 2);
            if sub_end(c, i) != i + 2 && sub_call(c, i) {
                lemma_call(c, sub_end(c, i));
            }
        }
    }
}

/// `[name]` in brackets.
pub open spec fn bracketed(w: Seq<char>) -> Seq<char> {
    seq!['['] + w + seq![']']
}

/// Among the prefixes of `sub` of length `len` down to one, the longest that
/// with `letter` and separator names the excluded parameter, a variable, or
/// (when a call follows) a function, with the text that replaces the name.
pub open spec fn subscript_match(
    letter: char,
    sub: Seq<char>,
    call: Seq<char>,
    vars: Set<Seq<char>>,
    funcs: Set<Seq<char>>,
    excl: Option<Seq<char>>,
    len: int,
) -> Option<Seq<char>>
    decreases len,
{
    if len <= 0 {
        None
    } else {
        let cand = seq![letter, VARIABLE_SEPARATOR] + sub.subrange(0, len);
        let rest = sub.subrange(len, sub.len() as int);
        if excl == Some(cand) {
            Some(bracketed(cand) + call + rest)
        } else if vars.contains(cand) {
            Some(bracketed(cand) + rest + call)
        } else if funcs.contains(cand) && call.len() > 0 {
            Some(seq!['['] + cand + call + seq![']'] + rest)
        } else {
            subscript_match(letter, sub, call, vars, funcs, excl, len - 1)
        }
    }
}

/// A single letter, in brackets when it names a variable.
pub open spec fn letter_text(l: char, vars: Set<Seq<char>>) -> Seq<char> {
    if vars.contains(seq![l]) {
        bracketed(seq![l])
    } else {
        seq![l]
    }
}

/// The rewriting of the call whose `(` is at `open`: its argument rewritten,
/// in parentheses (the closing one only where the text has it).
pub open spec fn call_text(c: Seq<char>, open: int, vars: Set<Seq<char>>, funcs: Set<Seq<char>>, excl: Option<Seq<char>>) -> Seq<char>
    decreases c.len(), 0int, 0int,
{
    if 0 <= open < c.len() {
        proof {
            lemma_call(c, open);
        }
        seq!['('] + definitions_from(call_arg(c, open), 0, vars, funcs, excl) + (if call_close(c, open) < c.len() {
            seq![')']
        } else {
            seq![]
        })
    } else {
        seq![]
    }
}

/// The rewriting of the name that starts at `i`.
pub open spec fn definitions_piece(c: Seq<char>, i: int, vars: Set<Seq<char>>, funcs: Set<Seq<char>>, excl: Option<Seq<char>>) -> Seq<char>
    decreases c.len(), c.len() - i, 0int,
{
    if i < 0 || i >= c.len() {
        seq![]
    } else if c[i] == '[' {
        c.subrange(i, bracket_end(c, i))
    } else if alphabetic(c[i]) {
        if word_call(c, i, funcs) {
            seq!['['] + word_at(c, i) + call_text(c, alpha_end(c, i), vars, funcs, excl) + seq![']']
        } else if word_var(c, i, vars) {
            bracketed(word_at(c, i))
        } else if letter_call(c, i, funcs) {
            seq!['[', c[i]] + call_text(c, i + 1, vars, funcs, excl) + seq![']']
        } else if letter_sub(c, i) {
            let sub = c.subrange(i + 2, sub_end(c, i));
            if sub.len() == 0 {
                seq![c[i], VARIABLE_SEPARATOR]
            } else {
                let call = if sub_call(c, i) {
                    call_text(c, sub_end(c, i), vars, funcs, excl)
                } else {
                    seq![]
                };
                match subscript_match(c[i], sub, call, vars, funcs, excl, sub.len() as int) {
                    Some(t) => t,
                    None => letter_text(c[i], vars) + seq![VARIABLE_SEPARATOR] + sub + call,
                }
            }
        } else if excl == Some(seq![c[i]]) {
            bracketed(seq![c[i]])
        } else {
            letter_text(c[i], vars)
        }
    } else {
        seq![c[i]]
    }
}

/// `c` from position `i` on with defined names, calls and the excluded
/// parameter put in brackets.
pub open spec fn definitions_from(c: Seq<char>, i: int, vars: Set<Seq<char>>, funcs: Set<Seq<char>>, excl: Option<Seq<char>>) -> Seq<char>
    decreases c.len(), c.len() - i, 1int,
{
    if i < 0 || i >= c.len() {
        seq![]
    } else {
        proof {
            lemma_definitions_next(c, i, vars, funcs);
        }
        definitions_piece(c, i, vars, funcs, excl) + definitions_from(
            c,
            definitions_next(c, i, vars, funcs),
            vars,
            funcs,
            excl,
        )
    }
}

/// The full rewriting of an expression: line references first, then
/// definitions.
pub open spec fn formatted(s: Seq<char>, vars: Set<Seq<char>>, funcs: Set<Seq<char>>, excl: Option<Seq<char>>) -> Seq<char> {
    definitions_from(line_patterns_from(s, 0), 0, vars, funcs, excl)
}

} // verus!

verus! {

fn process_line_patterns(c: &Vec<char>) -> (r: Vec<char>)
    ensures
        r@ == line_patterns_from(c@, 0),
{
    let mut out: Vec<char> = Vec::new();
    let mut i: usize = 0;
    let n = c.len();
    while i < n
        invariant
            n == c@.len(),
            i <= n,
            line_patterns_from(c@, 0) == out@ + line_patterns_from(c@, i as int),
        decreases n - i,
    {
        let ghost old_out = out@;
        let ghost gi = i as int;
        if c[i] == '[' {
            let j = find_from(c, i + 1, ']');
            proof {
                lemma_first_from(c@, gi + 1, ']');
            }
            let e = if j < n { j + 1 } else { n };
            let piece = slice(c, i, e);
            extend(&mut out, &piece);
            i = e;
            assert(out@ =~= old_out + c@.subrange(gi, bracket_end(c@, gi)));
        } else {
            let mut handled = false;
            if n - i > 3 && c[i] == 'l' && c[i + 1] == 'i' && c[i + 2] == 'n' && c[i + 3]
                == VARIABLE_SEPARATOR {
                let j = scan_digits(c, i + 4);
                if j > i + 4 {
                    proof {
                        lemma_digit_end(c@, gi + 4);
                    }
                    out.push('[');
                    out.push('l');
                    out.push('i');
                    out.push('n');
                    out.push(VARIABLE_SEPARATOR);
                    let digits = slice(c, i + 4, j);
                    extend(&mut out, &digits);
                    out.push(']');
                    assert(out@ =~= old_out + (seq!['[', 'l', 'i', 'n', VARIABLE_SEPARATOR] + c@.subrange(gi + 4, j as int) + seq![']']));
                    i = j;
                    handled = true;
                }
            }
            if !handled {
                assert(line_ref_end(c@, gi) < 0);
                out.push(c[i]);
                i = i + 1;
                assert(out@ =~= old_out + seq![c@[gi]]);
            }
        }
    }
    assert(out@ =~= out@ + line_patterns_from(c@, i as int));
    out
}

/// Whether the text `w` names a variable of the context.
pub fn has_var(ctx: &EvalContext, w: &Vec<char>) -> (b: bool)
    ensures
        b == ctx.var_names().contains(w@),
{
    let s = string_of(w);
    var_contains(&ctx.defined_vars, s.as_str())
}

/// Whether the text `w` names a function of the context.
pub fn has_func(ctx: &EvalContext, w: &Vec<char>) -> (b: bool)
    ensures
        b == ctx.func_names().contains(w@),
{
    let s = string_of(w);
    func_contains(&ctx.defined_funcs, s.as_str())
}

/// Whether `w` is the excluded parameter.
fn is_excluded(excl: &Option<Vec<char>>, w: &Vec<char>) -> (b: bool)
    ensures
        b == (opt_view(excl) == Some(w@)),
{
    match excl {
        Some(e) => same(e, w),
        None => false,
    }
}

pub open spec fn opt_view(o: &Option<Vec<char>>) -> Option<Seq<char>> {
    match o {
        Some(v) => Some(v@),
        None => None,
    }
}

} // verus!

verus! {

fn bracket_text(w: &Vec<char>) -> (r: Vec<char>)
    ensures
        r@ == bracketed(w@),
{
    let mut r: Vec<char> = Vec::new();
    r.push('[');
    extend(&mut r, w);
    r.push(']');
    assert(r@ =~= bracketed(w@));
    r
}

fn letter_rewrite(l: char, ctx: &EvalContext) -> (r: Vec<char>)
    ensures
        r@ == letter_text(l, ctx.var_names()),
{
    let mut w: Vec<char> = Vec::new();
    w.push(l);
    assert(w@ =~= seq![l]);
    if has_var(ctx, &w) {
        bracket_text(&w)
    } else {
        w
    }
}

fn subscript_lookup(l: char, sub: &Vec<char>, call: &Vec<char>, ctx: &EvalContext, excl: &Option<Vec<char>>) -> (r: Option<Vec<char>>)
    ensures
        match r {
            Some(t) => subscript_match(l, sub@, call@, ctx.var_names(), ctx.func_names(), opt_view(excl), sub@.len() as int) == Some(t@),
            None => subscript_match(l, sub@, call@, ctx.var_names(), ctx.func_names(), opt_view(excl), sub@.len() as int) is None,
        },
{
    let ghost vars = ctx.var_names();
    let ghost funcs = ctx.func_names();
    let ghost ex = opt_view(excl);
    let mut len = sub.len();
    while len > 0
        invariant
            len <= sub@.len(),
            subscript_match(l, sub@, call@, vars, funcs, ex, sub@.len() as int) == subscript_match(l, sub@, call@, vars, funcs, ex, len as int),
            vars == ctx.var_names(),
            funcs == ctx.func_names(),
            ex == opt_view(excl),
        decreases len,
    {
        let mut cand: Vec<char> = Vec::new();
        cand.push(l);
        cand.push(VARIABLE_SEPARATOR);
        let head = slice(sub, 0, len);
        extend(&mut cand, &head);
        let rest = slice(sub, len, sub.len());
        assert(cand@ =~= seq![l, VARIABLE_SEPARATOR] + sub@.subrange(0, len as int));
        if is_excluded(excl, &cand) {
            let mut t = bracket_text(&cand);
            extend(&mut t, call);
            extend(&mut t, &rest);
            assert(t@ =~= bracketed(cand@) + call@ + rest@);
            return Some(t);
        }
        if has_var(ctx, &cand) {
            let mut t = bracket_text(&cand);
            extend(&mut t, &rest);
            extend(&mut t, call);
            assert(t@ =~= bracketed(cand@) + rest@ + call@);
            return Some(t);
        }
        if call.len() > 0 && has_func(ctx, &cand) {
            let mut t: Vec<char> = Vec::new();
            t.push('[');
            extend(&mut t, &cand);
            extend(&mut t, call);
            t.push(']');
            extend(&mut t, &rest);
            assert(t@ =~= seq!['['] + cand@ + call@ + seq![']'] + rest@);
            return Some(t);
        }
        len = len - 1;
    }
    None
}

/// Rewrites the call whose `(` is at `open`; gives the text and where
/// processing continues.
fn call_rewrite(c: &Vec<char>, open: usize, ctx: &EvalContext, excl: &Option<Vec<char>>) -> (r: (Vec<char>, usize))
    requires
        open < c@.len(),
    ensures
        r.0@ == call_text(c@, open as int, ctx.var_names(), ctx.func_names(), opt_view(excl)),
        r.1 == call_next(c@, open as int),
    decreases c@.len(), 0int,
{
    proof {
        lemma_call(c@, open as int);
    }
    let n = c.len();
    assert(open < n);
    let k = scan_paren_close(c, open + 1);
    let arg = slice(c, open + 1, k);
    let inner = definitions_rewrite(&arg, ctx, excl);
    let mut t: Vec<char> = Vec::new();
    t.push('(');
    extend(&mut t, &inner);
    if k < c.len() {
        t.push(')');
        assert(t@ =~= seq!['('] + inner@ + seq![')']);
        (t, k + 1)
    } else {
        assert(t@ =~= seq!['('] + inner@ + seq![]);
        (t, k)
    }
}

/// Rewrites the name that starts at `i`; gives the text and where
/// processing continues.
fn definitions_step(c: &Vec<char>, i: usize, ctx: &EvalContext, excl: &Option<Vec<char>>) -> (r: (Vec<char>, usize))
    requires
        i < c@.len(),
    ensures
        r.0@ == definitions_piece(c@, i as int, ctx.var_names(), ctx.func_names(), opt_view(excl)),
        r.1 == definitions_next(c@, i as int, ctx.var_names(), ctx.func_names()),
    decreases c@.len(), 1int,
{
    let ghost cs = c@;
    let ghost gi = i as int;
    let ghost vars = ctx.var_names();
    let ghost funcs = ctx.func_names();
    let ghost ex = opt_view(excl);
    let n = c.len();
    if c[i] == '[' {
        let j = find_from(c, i + 1, ']');
        proof {
            lemma_first_from(cs, gi + 1, ']');
        }
        let e = if j < n { j + 1 } else { n };
        let piece = slice(c, i, e);
        return (piece, e);
    }
    if !is_alphabetic(c[i]) {
        let mut piece: Vec<char> = Vec::new();
        piece.push(c[i]);
        assert(piece@ =~= seq![cs[gi]]);
        return (piece, i + 1);
    }
    let t = scan_alpha(c, i);
    proof {
        lemma_alpha_end(cs, gi);
    }
    let boundary = i == 0 || !is_alphabetic(c[i - 1]);
    if boundary {
        let w = slice(c, i, t);
        if (is_known_function(&w) || has_func(ctx, &w)) && t < n && c[t] == '(' {
            assert(word_call(cs, gi, funcs));
            let (ct, next) = call_rewrite(c, t, ctx, excl);
            let mut piece: Vec<char> = Vec::new();
            piece.push('[');
            extend(&mut piece, &w);
            extend(&mut piece, &ct);
            piece.push(']');
            assert(piece@ =~= seq!['['] + word_at(cs, gi) + ct@ + seq![']']);
            return (piece, next);
        }
        assert(!word_call(cs, gi, funcs));
        if !(t < n && c[t] == VARIABLE_SEPARATOR) && w.len() > 1 && has_var(ctx, &w) {
            assert(word_var(cs, gi, vars));
            let piece = bracket_text(&w);
            return (piece, t);
        }
        assert(!word_var(cs, gi, vars));
    } else {
        assert(!word_call(cs, gi, funcs));
        assert(!word_var(cs, gi, vars));
    }
    let l = c[i];
    let mut lw: Vec<char> = Vec::new();
    lw.push(l);
    assert(lw@ =~= seq![l]);
    if i + 1 < n && c[i + 1] == '(' && has_func(ctx, &lw) {
        assert(letter_call(cs, gi, funcs));
        let (ct, next) = call_rewrite(c, i + 1, ctx, excl);
        let mut piece: Vec<char> = Vec::new();
        piece.push('[');
        piece.push(l);
        extend(&mut piece, &ct);
        piece.push(']');
        assert(piece@ =~= seq!['[', l] + ct@ + seq![']']);
        return (piece, next);
    }
    assert(!letter_call(cs, gi, funcs));
    if i + 1 < n && c[i + 1] == VARIABLE_SEPARATOR {
        assert(letter_sub(cs, gi));
        let e = scan_alnum(c, i + 2);
        proof {
            lemma_alnum_end(cs, gi + 2);
        }
        if e == i + 2 {
            let mut piece: Vec<char> = Vec::new();
            piece.push(l);
            piece.push(VARIABLE_SEPARATOR);
            assert(piece@ =~= seq![l, VARIABLE_SEPARATOR]);
            assert(cs.subrange(gi + 2, sub_end(cs, gi)).len() == 0);
            return (piece, i + 2);
        }
        let sub = slice(c, i + 2, e);
        let (call, next) = if e < n && c[e] == '(' {
            call_rewrite(c, e, ctx, excl)
        } else {
            (Vec::new(), e)
        };
        assert(call@ == (if sub_call(cs, gi) {
            call_text(cs, sub_end(cs, gi), vars, funcs, ex)
        } else {
            seq![]
        }));
        let m = subscript_lookup(l, &sub, &call, ctx, excl);
        match m {
            Some(p) => {
                return (p, next);
            },
            None => {
                let mut piece = letter_rewrite(l, ctx);
                piece.push(VARIABLE_SEPARATOR);
                extend(&mut piece, &sub);
                extend(&mut piece, &call);
                assert(piece@ =~= letter_text(l, vars) + seq![VARIABLE_SEPARATOR] + sub@ + call@);
                return (piece, next);
            },
        }
    }
    assert(!letter_sub(cs, gi));
    if is_excluded(excl, &lw) {
        let piece = bracket_text(&lw);
        return (piece, i + 1);
    }
    let piece = letter_rewrite(l, ctx);
    (piece, i + 1)
}

/// Rewrites a whole text.
fn definitions_rewrite(c: &Vec<char>, ctx: &EvalContext, excl: &Option<Vec<char>>) -> (r: Vec<char>)
    ensures
        r@ == definitions_from(c@, 0, ctx.var_names(), ctx.func_names(), opt_view(excl)),
    decreases c@.len(), 2int,
{
    let ghost vars = ctx.var_names();
    let ghost funcs = ctx.func_names();
    let ghost ex = opt_view(excl);
    let mut out: Vec<char> = Vec::new();
    let mut i: usize = 0;
    let n = c.len();
    while i < n
        invariant
            n == c@.len(),
            i <= n,
            vars == ctx.var_names(),
            funcs == ctx.func_names(),
            ex == opt_view(excl),
            definitions_from(c@, 0, vars, funcs, ex) == out@ + definitions_from(c@, i as int, vars, funcs, ex),
        decreases n - i,
    {
        proof {
            lemma_definitions_next(c@, i as int, vars, funcs);
        }
        let (piece, next) = definitions_step(c, i, ctx, excl);
        let ghost old_out = out@;
        extend(&mut out, &piece);
        assert(definitions_from(c@, i as int, vars, funcs, ex) == piece@ + definitions_from(c@, next as int, vars, funcs, ex));
        assert(out@ + definitions_from(c@, next as int, vars, funcs, ex) =~= old_out + (piece@ + definitions_from(c@, next as int, vars, funcs, ex)));
        i = next;
    }
    assert(out@ =~= out@ + definitions_from(c@, i as int, vars, funcs, ex));
    out
}

/// Puts line references and the defined names of `input` in brackets.
pub fn format_variables(input: String, eval_ctx: &EvalContext) -> (r: String)
    ensures
        r@ == formatted(input@, eval_ctx.var_names(), eval_ctx.func_names(), None),
{
    format_variables_with_exclusion(input, eval_ctx, None)
}

/// As `format_variables`, with the parameter `exclude_var` also put in
/// brackets wherever it stands as a name.
pub fn format_variables_with_exclusion(input: String, eval_ctx: &EvalContext, exclude_var: Option<&str>) -> (r: String)
    ensures
        r@ == formatted(
            input@,
            eval_ctx.var_names(),
            eval_ctx.func_names(),
            match exclude_var {
                Some(e) => Some(e@),
                None => None,
            },
        ),
{
    let c = chars_of(input.as_str());
    let lines = process_line_patterns(&c);
    let excl = match exclude_var {
        Some(e) => Some(chars_of(e)),
        None => None,
    };
    let out = definitions_rewrite(&lines, eval_ctx, &excl);
    string_of(&out)
}

} // verus!

verus! {

/// From `i` on, every alphabetic character stands inside a `[...]` group.
spec fn letters_in_groups(c: Seq<char>, i: int) -> bool
    decreases c.len() - i,
{
    if i < 0 || i >= c.len() {
        true
    } else if c[i] == '[' {
        proof {
            lemma_bracket_end(c, i);
        }
        letters_in_groups(c, bracket_end(c, i))
    } else {
        !alphabetic(c[i]) && letters_in_groups(c, i + 1)
    }
}

proof fn lemma_line_patterns_keep(c: Seq<char>, i: int)
    requires
        0 <= i <= c.len(),
        letters_in_groups(c, i),
    ensures
        line_patterns_from(c, i) == c.subrange(i, c.len() as int),
    decreases c.len() - i,
{
    if i < c.len() {
        if c[i] == '[' {
            lemma_bracket_end(c, i);
            lemma_line_patterns_keep(c, bracket_end(c, i));
            assert(c.subrange(i, bracket_end(c, i)) + c.subrange(bracket_end(c, i), c.len() as int) =~= c.subrange(i, c.len() as int));
        } else {
            lemma_line_patterns_keep(c, i + 1);
            assert(seq![c[i]] + c.subrange(i + 1, c.len() as int) =~= c.subrange(i, c.len() as int));
        }
    }
}

proof fn lemma_definitions_keep(c: Seq<char>, i: int, vars: Set<Seq<char>>, funcs: Set<Seq<char>>, excl: Option<Seq<char>>)
    requires
        0 <= i <= c.len(),
        letters_in_groups(c, i),
    ensures
        definitions_from(c, i, vars, funcs, excl) == c.subrange(i, c.len() as int),
    decreases c.len() - i,
{
    if i < c.len() {
        if c[i] == '[' {
            lemma_bracket_end(c, i);
            lemma_definitions_keep(c, bracket_end(c, i), vars, funcs, excl);
            assert(definitions_piece(c, i, vars, funcs, excl) == c.subrange(i, bracket_end(c, i)));
            assert(definitions_next(c, i, vars, funcs) == bracket_end(c, i));
            assert(definitions_from(c, i, vars, funcs, excl) == definitions_piece(c, i, vars, funcs, excl) + definitions_from(c, definitions_next(c, i, vars, funcs), vars, funcs, excl));
            assert(c.subrange(i, bracket_end(c, i)) + c.subrange(bracket_end(c, i), c.len() as int) =~= c.subrange(i, c.len() as int));
        } else {
            lemma_definitions_keep(c, i + 1, vars, funcs, excl);
            assert(definitions_piece(c, i, vars, funcs, excl) == seq![c[i]]);
            assert(definitions_next(c, i, vars, funcs) == i + 1);
            assert(definitions_from(c, i, vars, funcs, excl) == definitions_piece(c, i, vars, funcs, excl) + definitions_from(c, definitions_next(c, i, vars, funcs), vars, funcs, excl));
            assert(seq![c[i]] + c.subrange(i + 1, c.len() as int) =~= c.subrange(i, c.len() as int));
        }
    }
}

/// Between `q` and `p` there is no `]`.
pub open spec fn no_close_between(c: Seq<char>, q: int, p: int) -> bool {
    forall|r: int| q < r < p ==> #[trigger] c[r] != ']'
}

/// Every alphabetic character of `c` comes after some `[` with no `]` in
/// between.
pub open spec fn letters_after_open_bracket(c: Seq<char>) -> bool {
    forall|p: int| 0 <= p < c.len() && alphabetic(#[trigger] c[p]) ==>
        exists|q: int| 0 <= q < p && c[q] == '[' && no_close_between(c, q, p)
}

/// Each `[` before `i` is closed before `i`.
spec fn closed_at(c: Seq<char>, i: int) -> bool {
    forall|q: int| 0 <= q < i && c[q] == '[' ==> exists|r: int| q < r < i && #[trigger] c[r] == ']'
}

proof fn lemma_letters_in_groups(c: Seq<char>, i: int)
    requires
        0 <= i <= c.len(),
        letters_after_open_bracket(c),
        closed_at(c, i),
    ensures
        letters_in_groups(c, i),
    decreases c.len() - i,
{
    if i < c.len() {
        if c[i] == '[' {
            lemma_bracket_end(c, i);
            lemma_first_from(c, i + 1, ']');
            let be = bracket_end(c, i);
            if be < c.len() {
                assert forall|q: int| 0 <= q < be && c[q] == '[' implies exists|r: int| q < r < be && #[trigger] c[r] == ']' by {
                    if q < i {
                        let r = choose|r: int| q < r < i && #[trigger] c[r] == ']';
                        assert(q < r < be && c[r] == ']');
                    } else {
                        assert(q < be - 1 && c[be - 1] == ']');
                    }
                }
                lemma_letters_in_groups(c, be);
            }
        } else {
            if alphabetic(c[i]) {
                let q = choose|q: int| 0 <= q < i && c[q] == '[' && no_close_between(c, q, i);
                let r = choose|r: int| q < r < i && #[trigger] c[r] == ']';
                assert(c[r] != ']');
            }
            assert forall|q: int| 0 <= q < i + 1 && c[q] == '[' implies exists|r: int| q < r < i + 1 && #[trigger] c[r] == ']' by {
                let r = choose|r: int| q < r < i && #[trigger] c[r] == ']';
                assert(q < r < i + 1 && c[r] == ']');
            }
            lemma_letters_in_groups(c, i + 1);
        }
    }
}

/// An expression in which every alphabetic character comes after a `[` with
/// no `]` in between (so every letter stands inside a `[...]` group) comes back
/// unchanged from the rewriting (`format_variables`,
/// `format_variables_with_exclusion`), whatever is defined.
pub proof fn bracketed_text_unchanged(s: Seq<char>, vars: Set<Seq<char>>, funcs: Set<Seq<char>>, excl: Option<Seq<char>>)
    requires
        letters_after_open_bracket(s),
    ensures
        formatted(s, vars, funcs, excl) == s,
        definitions_from(s, 0, vars, funcs, excl) == s,
{
    lemma_letters_in_groups(s, 0);
    lemma_line_patterns_keep(s, 0);
    lemma_definitions_keep(s, 0, vars, funcs, excl);
    assert(s.subrange(0, s.len() as int) =~= s);
}

} // verus!

verus! {

/// `c` holds only digits from `i` on.
spec fn digits_from(c: Seq<char>, i: int) -> bool {
    forall|k: int| i <= k < c.len() ==> crate::text::is_digit(#[trigger] c[k])
}

proof fn lemma_digits_alnum_end(c: Seq<char>, i: int)
    requires
        0 <= i <= c.len(),
        digits_from(c, i),
    ensures
        alnum_end(c, i) == c.len(),
    decreases c.len() - i,
{
    if i < c.len() {
        assert(crate::text::is_digit(c[i]));
        lemma_digits_alnum_end(c, i + 1);
    }
}

proof fn lemma_digits_in_groups(c: Seq<char>, i: int)
    requires
        0 <= i <= c.len(),
        digits_from(c, i),
    ensures
        letters_in_groups(c, i),
    decreases c.len() - i,
{
    if i < c.len() {
        assert(crate::text::is_digit(c[i]));
        lemma_digits_in_groups(c, i + 1);
    }
}

/// A name made of a letter, the separator and digits, when it is itself a
/// defined variable, is put in brackets whole: among the prefixes of its
/// subscript the longest that names a variable is chosen, and here that is
/// the whole subscript.
pub proof fn defined_subscripted_name_bracketed(
    l: char,
    ds: Seq<char>,
    vars: Set<Seq<char>>,
    funcs: Set<Seq<char>>,
    excl: Option<Seq<char>>,
)
    requires
        alphabetic(l),
        ds.len() > 0,
        forall|k: int| 0 <= k < ds.len() ==> crate::text::is_digit(#[trigger] ds[k]),
        vars.contains(seq![l, VARIABLE_SEPARATOR] + ds),
    ensures
        formatted(seq![l, VARIABLE_SEPARATOR] + ds, vars, funcs, excl) == seq!['['] + (seq![l, VARIABLE_SEPARATOR] + ds) + seq![']'],
{
    let name = seq![l, VARIABLE_SEPARATOR] + ds;
    let c = name;
    assert(c[1] == VARIABLE_SEPARATOR);
    assert(!alphabetic(VARIABLE_SEPARATOR));
    assert forall|k: int| 2 <= k < c.len() implies crate::text::is_digit(#[trigger] c[k]) by {
        assert(c[k] == ds[k - 2]);
    }
    assert(digits_from(c, 2));
    lemma_digits_in_groups(c, 2);
    assert(letters_in_groups(c, 1));
    lemma_line_patterns_keep(c, 1);
    assert(line_ref_end(c, 0) == -1);
    assert(line_patterns_from(c, 0) == seq![c[0]] + line_patterns_from(c, 1));
    assert(seq![c[0]] + c.subrange(1, c.len() as int) =~= c);
    assert(line_patterns_from(c, 0) == c);
    // the definition stage
    assert(alpha_end(c, 1) == 1);
    assert(alpha_end(c, 0) == 1);
    assert(!word_call(c, 0, funcs));
    assert(!word_var(c, 0, vars));
    assert(!letter_call(c, 0, funcs));
    assert(letter_sub(c, 0));
    lemma_digits_alnum_end(c, 2);
    assert(sub_end(c, 0) == c.len());
    let sub = c.subrange(2, sub_end(c, 0));
    assert(sub =~= ds);
    assert(!sub_call(c, 0));
    assert(seq![c[0], VARIABLE_SEPARATOR] + sub.subrange(0, sub.len() as int) =~= name);
    assert(sub.subrange(sub.len() as int, sub.len() as int) =~= Seq::<char>::empty());
    let t = subscript_match(c[0], sub, seq![], vars, funcs, excl, sub.len() as int);
    assert(t == Some(bracketed(name) + Seq::<char>::empty() + Seq::<char>::empty())
        || t == Some(bracketed(name) + Seq::<char>::empty() + Seq::<char>::empty()));
    assert(bracketed(name) + Seq::<char>::empty() + Seq::<char>::empty() =~= seq!['['] + name + seq![']']);
    assert(definitions_piece(c, 0, vars, funcs, excl) == seq!['['] + name + seq![']']);
    assert(definitions_next(c, 0, vars, funcs) == c.len());
    assert(definitions_from(c, 0, vars, funcs, excl) == definitions_piece(c, 0, vars, funcs, excl) + definitions_from(c, c.len() as int, vars, funcs, excl));
    assert(definitions_from(c, 0, vars, funcs, excl) =~= seq!['['] + name + seq![']']);
}

/// The name made of `letter`, the separator and the first `j` characters of
/// `sub`.
pub open spec fn subscript_prefix_name(letter: char, sub: Seq<char>, j: int) -> Seq<char> {
    seq![letter, VARIABLE_SEPARATOR] + sub.subrange(0, j)
}

/// With no call after the name and no excluded parameter, the subscript
/// search stops at the longest prefix `k` that names a variable.
proof fn lemma_subscript_match_longest(
    letter: char,
    sub: Seq<char>,
    vars: Set<Seq<char>>,
    funcs: Set<Seq<char>>,
    len: int,
    k: int,
)
    requires
        1 <= k <= len <= sub.len(),
        vars.contains(seq![letter, VARIABLE_SEPARATOR] + sub.subrange(0, k)),
        forall|j: int| k < j <= len ==> !#[trigger] vars.contains(subscript_prefix_name(letter, sub, j)),
    ensures
        subscript_match(letter, sub, seq![], vars, funcs, None, len)
            == Some(bracketed(seq![letter, VARIABLE_SEPARATOR] + sub.subrange(0, k)) + sub.subrange(k, sub.len() as int)),
    decreases len,
{
    let cand = seq![letter, VARIABLE_SEPARATOR] + sub.subrange(0, len);
    if len == k {
        assert(bracketed(cand) + sub.subrange(k, sub.len() as int) + Seq::<char>::empty()
            =~= bracketed(cand) + sub.subrange(k, sub.len() as int));
    } else {
        assert(!vars.contains(subscript_prefix_name(letter, sub, len)));
        lemma_subscript_match_longest(letter, sub, vars, funcs, len - 1, k);
    }
}

/// Of a name made of a letter, the separator and digits, the longest part
/// `letter_<first k digits>` that names a variable is put in brackets and the
/// digits after it stay as they are: no shorter defined prefix is chosen
/// over a longer one.
pub proof fn longest_defined_subscript_prefix_bracketed(
    l: char,
    ds: Seq<char>,
    k: int,
    vars: Set<Seq<char>>,
    funcs: Set<Seq<char>>,
)
    requires
        alphabetic(l),
        1 <= k <= ds.len(),
        forall|i: int| 0 <= i < ds.len() ==> crate::text::is_digit(#[trigger] ds[i]),
        vars.contains(seq![l, VARIABLE_SEPARATOR] + ds.subrange(0, k)),
        forall|j: int| k < j <= ds.len() ==> !#[trigger] vars.contains(subscript_prefix_name(l, ds, j)),
    ensures
        formatted(seq![l, VARIABLE_SEPARATOR] + ds, vars, funcs, None)
            == seq!['['] + (seq![l, VARIABLE_SEPARATOR] + ds.subrange(0, k)) + seq![']'] + ds.subrange(k, ds.len() as int),
{
    let c = seq![l, VARIABLE_SEPARATOR] + ds;
    let excl: Option<Seq<char>> = None;
    assert(c[1] == VARIABLE_SEPARATOR);
    assert(!alphabetic(VARIABLE_SEPARATOR));
    assert forall|i: int| 2 <= i < c.len() implies crate::text::is_digit(#[trigger] c[i]) by {
        assert(c[i] == ds[i - 2]);
    }
    assert(digits_from(c, 2));
    lemma_digits_in_groups(c, 2);
    assert(letters_in_groups(c, 1));
    lemma_line_patterns_keep(c, 1);
    assert(line_ref_end(c, 0) == -1);
    assert(line_patterns_from(c, 0) == seq![c[0]] + line_patterns_from(c, 1));
    assert(seq![c[0]] + c.subrange(1, c.len() as int) =~= c);
    assert(line_patterns_from(c, 0) == c);
    assert(alpha_end(c, 1) == 1);
    assert(alpha_end(c, 0) == 1);
    assert(!word_call(c, 0, funcs));
    assert(!word_var(c, 0, vars));
    assert(!letter_call(c, 0, funcs));
    assert(letter_sub(c, 0));
    lemma_digits_alnum_end(c, 2);
    assert(sub_end(c, 0) == c.len());
    let sub = c.subrange(2, sub_end(c, 0));
    assert(sub =~= ds);
    assert(!sub_call(c, 0));
    lemma_subscript_match_longest(l, ds, vars, funcs, ds.len() as int, k);
    let want = seq!['['] + (seq![l, VARIABLE_SEPARATOR] + ds.subrange(0, k)) + seq![']'] + ds.subrange(k, ds.len() as int);
    assert(bracketed(seq![l, VARIABLE_SEPARATOR] + ds.subrange(0, k)) + ds.subrange(k, ds.len() as int) =~= want);
    assert(definitions_piece(c, 0, vars, funcs, excl) == want);
    assert(definitions_next(c, 0, vars, funcs) == c.len());
    assert(definitions_from(c, 0, vars, funcs, excl) == definitions_piece(c, 0, vars, funcs, excl) + definitions_from(c, c.len() as int, vars, funcs, excl));
    assert(definitions_from(c, 0, vars, funcs, excl) =~= want);
}

} // verus!

verus! {

proof fn lemma_digits_digit_end(c: Seq<char>, i: int)
    requires
        0 <= i <= c.len(),
        digits_from(c, i),
    ensures
        digit_end(c, i) == c.len(),
    decreases c.len() - i,
{
    if i < c.len() {
        assert(crate::text::is_digit(c[i]));
        lemma_digits_digit_end(c, i + 1);
    }
}

/// A call of a defined one-letter function, with an argument of digits, is
/// put in brackets whole: `f(12)` becomes `[f(12)]`.
pub proof fn defined_call_bracketed(f: char, a: Seq<char>, vars: Set<Seq<char>>, funcs: Set<Seq<char>>, excl: Option<Seq<char>>)
    requires
        alphabetic(f),
        funcs.contains(seq![f]),
        forall|k: int| 0 <= k < a.len() ==> crate::text::is_digit(#[trigger] a[k]),
    ensures
        formatted(seq![f, '('] + a + seq![')'], vars, funcs, excl) == seq!['[', f, '('] + a + seq![')', ']'],
{
    let c = seq![f, '('] + a + seq![')'];
    let k = c.len() - 1;
    assert forall|t: int| 1 <= t < c.len() implies !alphabetic(#[trigger] c[t]) && c[t] != '[' by {
        if 2 <= t < k {
            assert(c[t] == a[t - 2]);
        }
    }
    lemma_no_letters_in_groups(c, 1);
    lemma_line_patterns_keep(c, 1);
    assert(line_ref_end(c, 0) == -1);
    assert(line_patterns_from(c, 0) == seq![c[0]] + line_patterns_from(c, 1));
    assert(seq![c[0]] + c.subrange(1, c.len() as int) =~= c);
    assert(line_patterns_from(c, 0) == c);
    assert(alpha_end(c, 1) == 1);
    assert(alpha_end(c, 0) == 1);
    assert(word_at(c, 0) =~= seq![f]);
    assert(word_call(c, 0, funcs));
    assert forall|t: int| 2 <= t < k implies #[trigger] c[t] != '(' && c[t] != ')' by {
        assert(c[t] == a[t - 2]);
    }
    crate::chars::lemma_plain_close(c, 2, k);
    assert(call_close(c, 1) == k);
    assert(call_arg(c, 1) =~= a);
    assert forall|t: int| 0 <= t < a.len() implies !alphabetic(#[trigger] a[t]) && a[t] != '[' by {
        assert(crate::text::is_digit(a[t]));
    }
    lemma_no_letters_in_groups(a, 0);
    lemma_definitions_keep(a, 0, vars, funcs, excl);
    assert(a.subrange(0, a.len() as int) =~= a);
    assert(call_text(c, 1, vars, funcs, excl) == seq!['('] + a + seq![')']);
    assert(definitions_piece(c, 0, vars, funcs, excl) =~= seq!['[', f, '('] + a + seq![')', ']']);
    assert(definitions_next(c, 0, vars, funcs) == c.len());
    assert(definitions_from(c, 0, vars, funcs, excl) == definitions_piece(c, 0, vars, funcs, excl) + definitions_from(c, c.len() as int, vars, funcs, excl));
    assert(definitions_from(c, 0, vars, funcs, excl) =~= seq!['[', f, '('] + a + seq![')', ']']);
}

proof fn lemma_no_letters_in_groups(c: Seq<char>, i: int)
    requires
        0 <= i <= c.len(),
        forall|t: int| i <= t < c.len() ==> !alphabetic(#[trigger] c[t]) && c[t] != '[',
    ensures
        letters_in_groups(c, i),
    decreases c.len() - i,
{
    if i < c.len() {
        assert(!alphabetic(c[i]) && c[i] != '[');
        lemma_no_letters_in_groups(c, i + 1);
    }
}

/// In a function body of the form `p o p`, where the parameter `p` is a
/// single letter and `o` a character that neither starts a call nor a
/// subscript, each occurrence of the parameter is put in brackets, whatever
/// is defined.
pub proof fn parameter_occurrences_bracketed(p: char, o: char, vars: Set<Seq<char>>, funcs: Set<Seq<char>>)
    requires
        alphabetic(p),
        !alphabetic(o),
        o != '[' && o != '(' && o != VARIABLE_SEPARATOR,
    ensures
        formatted(seq![p, o, p], vars, funcs, Some(seq![p])) == seq!['[', p, ']', o, '[', p, ']'],
        formatted(seq![p], vars, funcs, Some(seq![p])) == seq!['[', p, ']'],
{
    let excl = Some(seq![p]);
    // three characters
    let c = seq![p, o, p];
    assert(line_ref_end(c, 0) == -1 && line_ref_end(c, 1) == -1 && line_ref_end(c, 2) == -1);
    assert(line_patterns_from(c, 3) == Seq::<char>::empty());
    assert(line_patterns_from(c, 2) == seq![p]);
    assert(line_patterns_from(c, 1) == seq![o] + seq![p]);
    assert(line_patterns_from(c, 0) =~= c);
    assert(alpha_end(c, 3) == 3);
    assert(alpha_end(c, 2) == 3);
    assert(alpha_end(c, 1) == 1);
    assert(alpha_end(c, 0) == 1);
    assert(word_at(c, 0) =~= seq![p]);
    assert(word_at(c, 2) =~= seq![p]);
    assert(!word_call(c, 0, funcs) && !word_var(c, 0, vars) && !letter_call(c, 0, funcs) && !letter_sub(c, 0));
    assert(!word_call(c, 2, funcs) && !word_var(c, 2, vars) && !letter_call(c, 2, funcs) && !letter_sub(c, 2));
    assert(definitions_piece(c, 0, vars, funcs, excl) == seq!['[', p, ']']) by {
        assert(bracketed(seq![p]) =~= seq!['[', p, ']']);
    }
    assert(definitions_piece(c, 2, vars, funcs, excl) == seq!['[', p, ']']) by {
        assert(bracketed(seq![p]) =~= seq!['[', p, ']']);
    }
    assert(definitions_piece(c, 1, vars, funcs, excl) == seq![o]);
    assert(definitions_next(c, 0, vars, funcs) == 1);
    assert(definitions_next(c, 1, vars, funcs) == 2);
    assert(definitions_next(c, 2, vars, funcs) == 3);
    assert(definitions_from(c, 3, vars, funcs, excl) == Seq::<char>::empty());
    assert(definitions_from(c, 2, vars, funcs, excl) == definitions_piece(c, 2, vars, funcs, excl) + definitions_from(c, 3, vars, funcs, excl));
    assert(definitions_from(c, 1, vars, funcs, excl) == definitions_piece(c, 1, vars, funcs, excl) + definitions_from(c, 2, vars, funcs, excl));
    assert(definitions_from(c, 0, vars, funcs, excl) == definitions_piece(c, 0, vars, funcs, excl) + definitions_from(c, 1, vars, funcs, excl));
    assert(definitions_from(c, 0, vars, funcs, excl) =~= seq!['[', p, ']', o, '[', p, ']']);
    // one character
    let e = seq![p];
    assert(line_ref_end(e, 0) == -1);
    assert(line_patterns_from(e, 1) == Seq::<char>::empty());
    assert(line_patterns_from(e, 0) =~= e);
    assert(alpha_end(e, 1) == 1);
    assert(alpha_end(e, 0) == 1);
    assert(word_at(e, 0) =~= seq![p]);
    assert(!word_call(e, 0, funcs) && !word_var(e, 0, vars) && !letter_call(e, 0, funcs) && !letter_sub(e, 0));
    assert(definitions_piece(e, 0, vars, funcs, excl) == seq!['[', p, ']']) by {
        assert(bracketed(seq![p]) =~= seq!['[', p, ']']);
    }
    assert(definitions_next(e, 0, vars, funcs) == 1);
    assert(definitions_from(e, 1, vars, funcs, excl) == Seq::<char>::empty());
    assert(definitions_from(e, 0, vars, funcs, excl) == definitions_piece(e, 0, vars, funcs, excl) + definitions_from(e, 1, vars, funcs, excl));
    assert(definitions_from(e, 0, vars, funcs, excl) =~= seq!['[', p, ']']);
}

/// A line reference `lin_<digits>` is put in brackets whole, whatever is
/// defined.
pub proof fn line_reference_bracketed(
    ds: Seq<char>,
    vars: Set<Seq<char>>,
    funcs: Set<Seq<char>>,
    excl: Option<Seq<char>>,
)
    requires
        ds.len() > 0,
        forall|k: int| 0 <= k < ds.len() ==> crate::text::is_digit(#[trigger] ds[k]),
    ensures
        formatted(seq!['l', 'i', 'n', VARIABLE_SEPARATOR] + ds, vars, funcs, excl)
            == seq!['[', 'l', 'i', 'n', VARIABLE_SEPARATOR] + ds + seq![']'],
{
    let c = seq!['l', 'i', 'n', VARIABLE_SEPARATOR] + ds;
    assert forall|k: int| 4 <= k < c.len() implies crate::text::is_digit(#[trigger] c[k]) by {
        assert(c[k] == ds[k - 4]);
    }
    assert(digits_from(c, 4));
    lemma_digits_digit_end(c, 4);
    assert(line_ref_end(c, 0) == c.len());
    assert(line_patterns_from(c, c.len() as int) == Seq::<char>::empty());
    let g = seq!['[', 'l', 'i', 'n', VARIABLE_SEPARATOR] + c.subrange(4, c.len() as int) + seq![']'];
    assert(line_patterns_from(c, 0) =~= g);
    assert(c.subrange(4, c.len() as int) =~= ds);
    let r = first_from(g, 1, ']');
    lemma_first_from(g, 1, ']');
    assert forall|k: int| 1 <= k < g.len() - 1 implies #[trigger] g[k] != ']' by {
        if k >= 5 {
            assert(g[k] == ds[k - 5]);
        }
    }
    assert(g[g.len() - 1] == ']');
    assert(r == g.len() - 1);
    assert(bracket_end(g, 0) == g.len());
    assert(letters_in_groups(g, g.len() as int));
    assert(letters_in_groups(g, 0));
    lemma_definitions_keep(g, 0, vars, funcs, excl);
    assert(g.subrange(0, g.len() as int) =~= g);
}

} // verus!
