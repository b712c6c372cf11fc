//! Reading `let` statements: one definition, or a batch `let [a, f(x)] = [1, x^2]`.
use vstd::prelude::*;
use crate::error::{EvalError, DefError, EvalErrorView, DefErrorView};
use crate::text::{chars_of, string_of};
use crate::chars::{
    first_from, last_of, trimmed, trimmed_start, starts_with, count_of, split_from, decimal,
    lemma_first_from, lemma_last_of, trim, trim_start, find_from, rfind, slice, extend,
    extend_str, has_char, count_char, starts_with_str, split_char, decimal_text,
};
use crate::definition_handler::parse_function::syntax;
use crate::eval_context::EvalContext;
use crate::eval::{
    Evaluation, Step, Frame, frames_view, frames_wf, pairs_view, let_statement, definitions_from_index,
    start_let, start_definition, rest_unchanged, let_proc, run_definitions, finish_step,
};

verus! {

/// The definitions of a `let` statement.
pub enum Definitions {
    /// `let [d1, d2, ...] = [v1, v2, ...]`: each name with its value text.
    Batch(Vec<(String, String)>),
    /// `let name = value`.
    Single(String, String),
}

pub enum DefinitionsView {
    Batch(Seq<(Seq<char>, Seq<char>)>),
    Single(Seq<char>, Seq<char>),
}

impl View for Definitions {
    type V = DefinitionsView;

    open spec fn view(&self) -> DefinitionsView {
        match self {
            Definitions::Batch(v) => DefinitionsView::Batch(
                v@.map_values(|p: (String, String)| (p.0@, p.1@)),
            ),
            Definitions::Single(n, v) => DefinitionsView::Single(n@, v@),
        }
    }
}

/// The text between `let [` and the first `]`, and between the `[` after
/// `=` and the last `]`, when the statement has that form.
pub open spec fn batch_parts(s: Seq<char>) -> Option<(Seq<char>, Seq<char>)> {
    let t = trimmed(s);
    if !starts_with(t, "let"@) {
        None
    } else {
        let r1 = trimmed_start(t.subrange(3, t.len() as int));
        if !(r1.len() > 0 && r1[0] == '[') {
            None
        } else {
            let fc = first_from(r1, 0, ']');
            if fc >= r1.len() {
                None
            } else {
                let a1 = trimmed_start(r1.subrange(fc + 1, r1.len() as int));
                if !(a1.len() > 0 && a1[0] == '=') {
                    None
                } else {
                    let a2 = trimmed_start(a1.subrange(1, a1.len() as int));
                    if !(a2.len() > 0 && a2[0] == '[') {
                        None
                    } else {
                        let lc = last_of(a2, a2.len() as int, ']');
                        if lc < 1 {
                            None
                        } else if trimmed(a2.subrange(lc + 1, a2.len() as int)).len() != 0 {
                            None
                        } else {
                            Some((r1.subrange(1, fc), a2.subrange(1, lc)))
                        }
                    }
                }
            }
        }
    }
}

/// Each piece trimmed.
pub open spec fn trimmed_all(p: Seq<Seq<char>>) -> Seq<Seq<char>> {
    p.map_values(|x: Seq<char>| trimmed(x))
}

pub open spec fn bracket_hint() -> Seq<char> {
    ". Use: let [x, y] = [1, 2]"@
}

/// Both kinds of bracket occur in `s`.
pub open spec fn has_brackets(s: Seq<char>) -> bool {
    s.contains('[') && s.contains(']')
}

/// The name and value of `let name = value`, trimmed; refused without the
/// leading `let ` or without `=`.
pub open spec fn tidied_definition(s: Seq<char>) -> Result<(Seq<char>, Seq<char>), EvalErrorView> {
    if !starts_with(s, "let "@) {
        Err(syntax("Use: let x = 5"@))
    } else {
        let rest = s.subrange(4, s.len() as int);
        let e = first_from(rest, 0, '=');
        if e >= rest.len() {
            Err(syntax("Missing '=' sign. Use: let x = 5"@))
        } else {
            Ok((trimmed(rest.subrange(0, e)), trimmed(rest.subrange(e + 1, rest.len() as int))))
        }
    }
}

/// The definitions that a `let` statement makes, or why it is refused:
/// unbalanced brackets, brackets on one side only, an empty list, lists of
/// different lengths, or no `=`.
pub open spec fn definitions_plan(s: Seq<char>) -> Result<DefinitionsView, EvalErrorView> {
    let open = count_of(s, '[');
    let close = count_of(s, ']');
    let eq = first_from(s, 0, '=');
    if open > close {
        Err(syntax("Missing "@ + decimal((open - close) as nat) + " closing bracket(s) ']'"@ + bracket_hint()))
    } else if open < close {
        Err(syntax("Missing "@ + decimal((close - open) as nat) + " opening bracket(s) '['"@ + bracket_hint()))
    } else if (s.contains('[') || s.contains(']')) && eq < s.len()
        && has_brackets(trimmed(s.subrange(0, eq))) && !has_brackets(trimmed(s.subrange(eq + 1, s.len() as int))) {
        Err(syntax("Left side has brackets but right side doesn't"@ + bracket_hint()))
    } else if (s.contains('[') || s.contains(']')) && eq < s.len()
        && !has_brackets(trimmed(s.subrange(0, eq))) && has_brackets(trimmed(s.subrange(eq + 1, s.len() as int))) {
        Err(syntax("Right side has brackets but left side doesn't"@ + bracket_hint()))
    } else {
        match batch_parts(s) {
            Some((d, v)) => {
                let ds = trimmed_all(split_from(d, 0, ','));
                let vs = trimmed_all(split_from(v, 0, ','));
                if trimmed(d).len() == 0 {
                    Err(syntax("Empty variable list"@ + bracket_hint()))
                } else if trimmed(v).len() == 0 {
                    Err(syntax("Empty value list"@ + bracket_hint()))
                } else if ds.len() != vs.len() {
                    Err(EvalErrorView::Def(DefErrorView::Mismatched("Mismatch: "@ + decimal(ds.len()) + " variable(s) but "@
                        + decimal(vs.len()) + " value(s). Example: let [x, y, z] = [1, 2, 3]"@)))
                } else {
                    Ok(DefinitionsView::Batch(Seq::new(ds.len(), |k: int| (ds[k], vs[k]))))
                }
            },
            None => match tidied_definition(s) {
                Ok((n, v)) => Ok(DefinitionsView::Single(n, v)),
                Err(e) => Err(e),
            },
        }
    }
}

fn chars_has_brackets(c: &Vec<char>) -> (b: bool)
    ensures
        b == has_brackets(c@),
{
    has_char(c, '[') && has_char(c, ']')
}

fn syntax_error(parts: &Vec<char>) -> (e: EvalError)
    ensures
        e@ == syntax(parts@),
{
    EvalError::DefError(DefError::InvalidDefinitionSyntax(string_of(parts)))
}

/// The definition lists of `let [..] = [..]`, when the statement has that form.
pub fn parse_batch_assignment(input: &str) -> (r: Option<(String, String)>)
    ensures
        match r {
            Some((d, v)) => batch_parts(input@) == Some((d@, v@)),
            None => batch_parts(input@) is None,
        },
{
    let raw = chars_of(input);
    let t = trim(&raw);
    if !starts_with_str(&t, "let") {
        return None;
    }
    proof {
        reveal_strlit("let");
    }
    let after_let = slice(&t, 3, t.len());
    let r1 = trim_start(&after_let);
    if !(r1.len() > 0 && r1[0] == '[') {
        return None;
    }
    let fc = find_from(&r1, 0, ']');
    proof {
        lemma_first_from(r1@, 0, ']');
    }
    if fc >= r1.len() {
        return None;
    }
    let after_first = slice(&r1, fc + 1, r1.len());
    let a1 = trim_start(&after_first);
    if !(a1.len() > 0 && a1[0] == '=') {
        return None;
    }
    let after_eq = slice(&a1, 1, a1.len());
    let a2 = trim_start(&after_eq);
    if !(a2.len() > 0 && a2[0] == '[') {
        return None;
    }
    proof {
        lemma_last_of(a2@, a2@.len() as int, ']');
    }
    let lc = match rfind(&a2, ']') {
        Some(k) => k,
        None => {
            return None;
        },
    };
    if lc < 1 {
        return None;
    }
    let tail = slice(&a2, lc + 1, a2.len());
    let tt = trim(&tail);
    if tt.len() != 0 {
        return None;
    }
    let d = slice(&r1, 1, fc);
    let v = slice(&a2, 1, lc);
    Some((string_of(&d), string_of(&v)))
}

fn trim_each(p: &Vec<Vec<char>>) -> (r: Vec<Vec<char>>)
    ensures
        r@.len() == p@.len(),
        forall|k: int| 0 <= k < r@.len() ==> (#[trigger] r@[k])@ == trimmed(p@[k]@),
{
    let mut r: Vec<Vec<char>> = Vec::new();
    let mut i: usize = 0;
    while i < p.len()
        invariant
            i <= p@.len(),
            r@.len() == i,
            forall|k: int| 0 <= k < r@.len() ==> (#[trigger] r@[k])@ == trimmed(p@[k]@),
        decreases p@.len() - i,
    {
        r.push(trim(&p[i]));
        i = i + 1;
    }
    r
}

/// Reads `let name = value` into its trimmed name and value.
pub fn tidy_definition_input(input: &str) -> (r: Result<(String, String), EvalError>)
    ensures
        match r {
            Ok((n, v)) => tidied_definition(input@) == Ok::<(Seq<char>, Seq<char>), EvalErrorView>((n@, v@)),
            Err(e) => tidied_definition(input@) == Err::<(Seq<char>, Seq<char>), EvalErrorView>(e@),
        },
{
    let s = chars_of(input);
    if !starts_with_str(&s, "let ") {
        let m = chars_of("Use: let x = 5");
        return Err(syntax_error(&m));
    }
    proof {
        reveal_strlit("let ");
    }
    let rest = slice(&s, 4, s.len());
    let e = find_from(&rest, 0, '=');
    proof {
        lemma_first_from(rest@, 0, '=');
    }
    if e >= rest.len() {
        let m = chars_of("Missing '=' sign. Use: let x = 5");
        return Err(syntax_error(&m));
    }
    let nr = slice(&rest, 0, e);
    let vr = slice(&rest, e + 1, rest.len());
    let n = trim(&nr);
    let v = trim(&vr);
    Ok((string_of(&n), string_of(&v)))
}

/// Reads a `let` statement into the definitions it makes.
pub fn plan_definitions(input: &str) -> (r: Result<Definitions, EvalError>)
    ensures
        match r {
            Ok(d) => definitions_plan(input@) == Ok::<DefinitionsView, EvalErrorView>(d@),
            Err(e) => definitions_plan(input@) == Err::<DefinitionsView, EvalErrorView>(e@),
        },
{
    let s = chars_of(input);
    let open = count_char(&s, '[');
    let close = count_char(&s, ']');
    if open > close {
        let mut m = chars_of("Missing ");
        let num = decimal_text(open - close);
        extend(&mut m, &num);
        extend_str(&mut m, " closing bracket(s) ']'");
        extend_str(&mut m, ". Use: let [x, y] = [1, 2]");
        return Err(syntax_error(&m));
    }
    if open < close {
        let mut m = chars_of("Missing ");
        let num = decimal_text(close - open);
        extend(&mut m, &num);
        extend_str(&mut m, " opening bracket(s) '['");
        extend_str(&mut m, ". Use: let [x, y] = [1, 2]");
        return Err(syntax_error(&m));
    }
    let eq = find_from(&s, 0, '=');
    proof {
        lemma_first_from(s@, 0, '=');
    }
    if (has_char(&s, '[') || has_char(&s, ']')) && eq < s.len() {
        let lhs_raw = slice(&s, 0, eq);
        let rhs_raw = slice(&s, eq + 1, s.len());
        let lhs = trim(&lhs_raw);
        let rhs = trim(&rhs_raw);
        let lb = chars_has_brackets(&lhs);
        let rb = chars_has_brackets(&rhs);
        if lb && !rb {
            let mut m = chars_of("Left side has brackets but right side doesn't");
            extend_str(&mut m, ". Use: let [x, y] = [1, 2]");
            return Err(syntax_error(&m));
        }
        if !lb && rb {
            let mut m = chars_of("Right side has brackets but left side doesn't");
            extend_str(&mut m, ". Use: let [x, y] = [1, 2]");
            return Err(syntax_error(&m));
        }
    }
    match parse_batch_assignment(input) {
        Some((d, v)) => {
            let dc = chars_of(d.as_str());
            let vc = chars_of(v.as_str());
            let dt = trim(&dc);
            let vt = trim(&vc);
            let ds_raw = split_char(&dc, ',');
            let vs_raw = split_char(&vc, ',');
            let ds = trim_each(&ds_raw);
            let vs = trim_each(&vs_raw);
            let ghost gds = trimmed_all(split_from(dc@, 0, ','));
            let ghost gvs = trimmed_all(split_from(vc@, 0, ','));
            assert(ds@.len() == gds.len());
            assert(vs@.len() == gvs.len());
            if dt.len() == 0 {
                let mut m = chars_of("Empty variable list");
                extend_str(&mut m, ". Use: let [x, y] = [1, 2]");
                return Err(syntax_error(&m));
            }
            if vt.len() == 0 {
                let mut m = chars_of("Empty value list");
                extend_str(&mut m, ". Use: let [x, y] = [1, 2]");
                return Err(syntax_error(&m));
            }
            if ds.len() != vs.len() {
                let mut m = chars_of("Mismatch: ");
                let n1 = decimal_text(ds.len());
                extend(&mut m, &n1);
                extend_str(&mut m, " variable(s) but ");
                let n2 = decimal_text(vs.len());
                extend(&mut m, &n2);
                extend_str(&mut m, " value(s). Example: let [x, y, z] = [1, 2, 3]");
                return Err(EvalError::DefError(DefError::MismatchedBatch(string_of(&m))));
            }
            let mut pairs: Vec<(String, String)> = Vec::new();
            let mut k: usize = 0;
            while k < ds.len()
                invariant
                    k <= ds@.len(),
                    ds@.len() == vs@.len(),
                    ds@.len() == gds.len(),
                    vs@.len() == gvs.len(),
                    forall|j: int| 0 <= j < ds@.len() ==> (#[trigger] ds@[j])@ == gds[j],
                    forall|j: int| 0 <= j < vs@.len() ==> (#[trigger] vs@[j])@ == gvs[j],
                    pairs@.len() == k,
                    forall|j: int| 0 <= j < k ==> (#[trigger] pairs@[j]).0@ == gds[j] && pairs@[j].1@ == gvs[j],
                decreases ds@.len() - k,
            {
                pairs.push((string_of(&ds[k]), string_of(&vs[k])));
                k = k + 1;
            }
            let r = Definitions::Batch(pairs);
            assert(r@ == DefinitionsView::Batch(Seq::new(gds.len(), |j: int| (gds[j], gvs[j])))) by {
                assert(pairs@.map_values(|p: (String, String)| (p.0@, p.1@)) =~= Seq::new(gds.len(), |j: int| (gds[j], gvs[j])));
            }
            Ok(r)
        },
        None => match tidy_definition_input(input) {
            Ok((n, v)) => Ok(Definitions::Single(n, v)),
            Err(e) => Err(e),
        },
    }
}

/// Starts the definitions of a `let` statement: the list of recent
/// definitions is cleared, then each definition is made in order (a
/// variable's value is evaluated first). Continue with `Evaluation::resume`.
pub fn assign_batch(eval_ctx: &mut EvalContext, input: &str) -> (r: (Evaluation, Step))
    requires
        old(eval_ctx).wf(),
    ensures
        (r.0@, final(eval_ctx)@, r.1@) == start_let(old(eval_ctx)@, input@),
        final(eval_ctx).wf(),
        rest_unchanged(old(eval_ctx), final(eval_ctx)),
        r.0.wf(),
{
    let t = chars_of(input);
    let mut frames: Vec<Frame> = Vec::new();
    assert(frames_wf(frames_view(frames@)));
    let o = let_proc(eval_ctx, &mut frames, &t);
    assert(frames_view(frames@) =~= let_statement(old(eval_ctx)@, input@).1);
    finish_step(frames, o)
}

/// Starts one definition: a function (`f(x)`) is defined at once, a variable
/// once its value is evaluated. Continue with `Evaluation::resume`.
pub fn assign_definition(eval_ctx: &mut EvalContext, def_name: &str, def_value: &str) -> (r: (Evaluation, Step))
    requires
        old(eval_ctx).wf(),
    ensures
        (r.0@, final(eval_ctx)@, r.1@) == start_definition(old(eval_ctx)@, def_name@, def_value@),
        final(eval_ctx).wf(),
        rest_unchanged(old(eval_ctx), final(eval_ctx)),
        r.0.wf(),
{
    let pair = (def_name.to_owned(), def_value.to_owned());
    let mut pairs: Vec<(String, String)> = Vec::new();
    pairs.push(pair);
    assert(pairs_view(pairs@) =~= seq![(def_name@, def_value@)]);
    let mut frames: Vec<Frame> = Vec::new();
    assert(frames_wf(frames_view(frames@)));
    let o = run_definitions(eval_ctx, &mut frames, pairs, 0, true);
    assert(frames_view(frames@) =~= definitions_from_index(old(eval_ctx)@, seq![(def_name@, def_value@)], 0, true).1);
    finish_step(frames, o)
}

} // verus!

verus! {

proof fn lemma_count_absent(c: Seq<char>, ch: char)
    requires
        !c.contains(ch),
    ensures
        count_of(c, ch) == 0,
    decreases c.len(),
{
    if c.len() > 0 {
        assert(c.last() != ch) by {
            assert(c[c.len() - 1] == c.last());
        }
        assert forall|k: int| 0 <= k < c.drop_last().len() implies c.drop_last()[k] != ch by {
            assert(c.drop_last()[k] == c[k]);
        }
        lemma_count_absent(c.drop_last(), ch);
    }
}

/// `let name = value` without brackets defines that one name with that
/// value, the spaces around `=` aside.
pub proof fn single_definition_read(n: Seq<char>, v: Seq<char>)
    requires
        n.len() > 0,
        v.len() > 0,
        !crate::text::whitespace(n[0]),
        !crate::text::whitespace(n[n.len() - 1]),
        !crate::text::whitespace(v[0]),
        !crate::text::whitespace(v[v.len() - 1]),
        !n.contains('='),
        !n.contains('['),
        !n.contains(']'),
        !v.contains('['),
        !v.contains(']'),
    ensures
        definitions_plan("let "@ + n + " = "@ + v) == Ok::<DefinitionsView, EvalErrorView>(DefinitionsView::Single(n, v)),
{
    reveal_strlit("let ");
    reveal_strlit(" = ");
    reveal_strlit("let");
    let s = "let "@ + n + " = "@ + v;
    let nl = n.len() as int;
    assert forall|i: int| 0 <= i < s.len() implies #[trigger] s[i] != '[' && s[i] != ']' by {
        if 4 <= i < 4 + nl {
            assert(s[i] == n[i - 4]);
            assert(n.contains(n[i - 4]));
        } else if i >= 7 + nl {
            assert(s[i] == v[i - 7 - nl]);
            assert(v.contains(v[i - 7 - nl]));
        }
    }
    assert(!s.contains('['));
    assert(!s.contains(']'));
    lemma_count_absent(s, '[');
    lemma_count_absent(s, ']');
    // not a batch
    assert(!crate::text::whitespace(s[0]));
    crate::chars::lemma_trimmed_between(s, 0, s.len() as int);
    assert(s.subrange(0, s.len() as int) =~= s);
    let t = trimmed(s);
    assert(t.subrange(0, 3) =~= "let"@);
    assert(starts_with(t, "let"@));
    let u = t.subrange(3, t.len() as int);
    crate::chars::lemma_ws_start(u, 0);
    assert(crate::text::whitespace(u[0]));
    assert(u[1] == n[0]);
    if crate::chars::ws_start(u, 0) == 0 {
        assert(false);
    }
    if crate::chars::ws_start(u, 0) > 1 {
        assert(crate::text::whitespace(u[1]));
    }
    assert(crate::chars::ws_start(u, 0) == 1);
    let r1 = trimmed_start(u);
    assert(r1[0] == n[0]);
    assert(n.contains(n[0]));
    assert(batch_parts(s) is None);
    // one definition
    assert(s.subrange(0, 4) =~= "let "@);
    assert(starts_with(s, "let "@));
    let rest = s.subrange(4, s.len() as int);
    assert(rest =~= n + " = "@ + v);
    lemma_first_from(rest, 0, '=');
    assert(rest[nl + 1] == '=');
    assert forall|k: int| 0 <= k <= nl implies rest[k] != '=' by {
        if k < nl {
            assert(rest[k] == n[k]);
            assert(n.contains(n[k]));
        }
    }
    assert(first_from(rest, 0, '=') == nl + 1);
    let l = rest.subrange(0, nl + 1);
    let r = rest.subrange(nl + 2, rest.len() as int);
    assert(l =~= n.push(' '));
    assert(r =~= seq![' '] + v);
    crate::chars::lemma_trimmed_between(l, 0, nl);
    assert(l.subrange(0, nl) =~= n);
    crate::chars::lemma_trimmed_between(r, 1, r.len() as int);
    assert(r.subrange(1, r.len() as int) =~= v);
    assert(tidied_definition(s) == Ok::<(Seq<char>, Seq<char>), EvalErrorView>((n, v)));
}

} // verus!

verus! {

proof fn lemma_first_at(c: Seq<char>, i: int, j: int, ch: char)
    requires
        0 <= i <= j <= c.len(),
        j < c.len() ==> c[j] == ch,
        forall|k: int| i <= k < j ==> #[trigger] c[k] != ch,
    ensures
        first_from(c, i, ch) == j,
{
    lemma_first_from(c, i, ch);
    let f = first_from(c, i, ch);
    if f < j {
        assert(c[f] == ch);
    }
}

proof fn lemma_trimmed_start_at(c: Seq<char>, a: int)
    requires
        0 <= a < c.len(),
        forall|k: int| 0 <= k < a ==> crate::text::whitespace(#[trigger] c[k]),
        !crate::text::whitespace(c[a]),
    ensures
        trimmed_start(c) == c.subrange(a, c.len() as int),
{
    crate::chars::lemma_ws_start(c, 0);
    let s0 = crate::chars::ws_start(c, 0);
    if s0 > a {
        assert(crate::text::whitespace(c[a]));
    }
    if s0 < a {
        assert(crate::text::whitespace(c[s0]));
    }
}

proof fn lemma_count_concat(p: Seq<char>, q: Seq<char>, ch: char)
    ensures
        count_of(p + q, ch) == count_of(p, ch) + count_of(q, ch),
    decreases q.len(),
{
    if q.len() == 0 {
        assert(p + q =~= p);
    } else {
        assert((p + q).drop_last() =~= p + q.drop_last());
        assert((p + q).last() == q.last());
        lemma_count_concat(p, q.drop_last(), ch);
    }
}

/// A list piece: not empty, no whitespace at its ends, and none of `[`, `]`,
/// `,` and `=`.
pub open spec fn plain_item(a: Seq<char>) -> bool {
    &&& a.len() > 0
    &&& !crate::text::whitespace(a[0])
    &&& !crate::text::whitespace(a[a.len() - 1])
    &&& !a.contains('[') && !a.contains(']') && !a.contains(',') && !a.contains('=')
}

proof fn lemma_plain_item(a: Seq<char>)
    requires
        plain_item(a),
    ensures
        forall|k: int| 0 <= k < a.len() ==> #[trigger] a[k] != '[' && a[k] != ']' && a[k] != ',' && a[k] != '=',
        count_of(a, '[') == 0,
        count_of(a, ']') == 0,
        trimmed(a) == a,
{
    assert forall|k: int| 0 <= k < a.len() implies #[trigger] a[k] != '[' && a[k] != ']' && a[k] != ',' && a[k] != '=' by {
        assert(a.contains(a[k]));
    }
    lemma_count_absent(a, '[');
    lemma_count_absent(a, ']');
    crate::chars::lemma_trimmed_between(a, 0, a.len() as int);
    assert(a.subrange(0, a.len() as int) =~= a);
}

/// The pieces of `a, b` split at the comma and trimmed are `a` and `b`.
proof fn lemma_pair_split(a: Seq<char>, b: Seq<char>)
    requires
        plain_item(a),
        plain_item(b),
    ensures
        trimmed_all(split_from(a + ", "@ + b, 0, ',')) == seq![a, b],
        trimmed(a + ", "@ + b).len() != 0,
{
    reveal_strlit(", ");
    lemma_plain_item(a);
    lemma_plain_item(b);
    let d = a + ", "@ + b;
    let al = a.len() as int;
    assert forall|k: int| 0 <= k < al implies #[trigger] d[k] != ',' by {
        assert(d[k] == a[k]);
    }
    lemma_first_at(d, 0, al, ',');
    assert forall|k: int| al + 1 <= k < d.len() implies #[trigger] d[k] != ',' by {
        if k >= al + 2 {
            assert(d[k] == b[k - al - 2]);
        }
    }
    lemma_first_at(d, al + 1, d.len() as int, ',');
    assert(split_from(d, al + 1, ',') == seq![d.subrange(al + 1, d.len() as int)]);
    let sp = split_from(d, 0, ',');
    assert(sp == seq![d.subrange(0, al)] + seq![d.subrange(al + 1, d.len() as int)]);
    assert(d.subrange(0, al) =~= a);
    let r = d.subrange(al + 1, d.len() as int);
    assert(r =~= seq![' '] + b);
    crate::chars::lemma_trimmed_between(r, 1, r.len() as int);
    assert(r.subrange(1, r.len() as int) =~= b);
    assert(trimmed_all(sp) =~= seq![a, b]);
    assert(d[0] == a[0]);
    assert(d[d.len() - 1] == b[b.len() - 1]);
    crate::chars::lemma_trimmed_between(d, 0, d.len() as int);
}

/// The text of `let [d] = [v]`.
pub open spec fn batch_text(d: Seq<char>, v: Seq<char>) -> Seq<char> {
    "let ["@ + d + "] = ["@ + v + "]"@
}

/// Lists without brackets and `=`, that start and end with no whitespace.
pub open spec fn plain_list(d: Seq<char>) -> bool {
    &&& d.len() > 0
    &&& !crate::text::whitespace(d[0])
    &&& !crate::text::whitespace(d[d.len() - 1])
    &&& forall|k: int| 0 <= k < d.len() ==> #[trigger] d[k] != '[' && d[k] != ']' && d[k] != '='
}

proof fn lemma_pair_list(a: Seq<char>, b: Seq<char>)
    requires
        plain_item(a),
        plain_item(b),
    ensures
        plain_list(a + ", "@ + b),
        count_of(a + ", "@ + b, '[') == 0,
        count_of(a + ", "@ + b, ']') == 0,
{
    reveal_strlit(", ");
    lemma_plain_item(a);
    lemma_plain_item(b);
    let d = a + ", "@ + b;
    assert forall|k: int| 0 <= k < d.len() implies #[trigger] d[k] != '[' && d[k] != ']' && d[k] != '=' by {
        if k < a.len() {
            assert(d[k] == a[k]);
        } else if k >= a.len() + 2 {
            assert(d[k] == b[k - a.len() - 2]);
        }
    }
    assert(d[0] == a[0]);
    assert(d[d.len() - 1] == b[b.len() - 1]);
    lemma_count_absent(d, '[');
    lemma_count_absent(d, ']');
}

proof fn lemma_batch_counts(d: Seq<char>, v: Seq<char>)
    requires
        count_of(d, '[') == 0,
        count_of(d, ']') == 0,
        count_of(v, '[') == 0,
        count_of(v, ']') == 0,
    ensures
        count_of(batch_text(d, v), '[') == count_of(batch_text(d, v), ']'),
{
    reveal_strlit("let [");
    reveal_strlit("] = [");
    reveal_strlit("]");
    lemma_count_concat("let ["@, d, '[');
    lemma_count_concat("let ["@ + d, "] = ["@, '[');
    lemma_count_concat("let ["@ + d + "] = ["@, v, '[');
    lemma_count_concat("let ["@ + d + "] = ["@ + v, "]"@, '[');
    lemma_count_concat("let ["@, d, ']');
    lemma_count_concat("let ["@ + d, "] = ["@, ']');
    lemma_count_concat("let ["@ + d + "] = ["@, v, ']');
    lemma_count_concat("let ["@ + d + "] = ["@ + v, "]"@, ']');
    reveal_with_fuel(count_of, 6);
    assert(count_of("let ["@, '[') == 1);
    assert(count_of("let ["@, ']') == 0);
    assert(count_of("] = ["@, '[') == 1);
    assert(count_of("] = ["@, ']') == 1);
    assert(count_of("]"@, '[') == 0);
    assert(count_of("]"@, ']') == 1);
}

proof fn lemma_batch_sides(d: Seq<char>, v: Seq<char>)
    requires
        plain_list(d),
        plain_list(v),
    ensures
        ({
            let s = batch_text(d, v);
            let eq = first_from(s, 0, '=');
            &&& s.contains('[')
            &&& eq < s.len()
            &&& has_brackets(trimmed(s.subrange(0, eq)))
            &&& has_brackets(trimmed(s.subrange(eq + 1, s.len() as int)))
        }),
{
    reveal_strlit("let [");
    reveal_strlit("] = [");
    reveal_strlit("]");
    let s = batch_text(d, v);
    let dl = d.len() as int;
    let eq = 5 + dl + 2;
    assert forall|k: int| 0 <= k < eq implies #[trigger] s[k] != '=' by {
        if 5 <= k < 5 + dl {
            assert(s[k] == d[k - 5]);
        }
    }
    assert(s[eq] == '=');
    lemma_first_at(s, 0, eq, '=');
    assert(s[4] == '[');
    assert(s.contains('['));
    let left = s.subrange(0, eq);
    assert(!crate::text::whitespace(left[0]));
    assert(left[eq - 2] == ']');
    crate::chars::lemma_trimmed_between(left, 0, eq - 1);
    let tl = trimmed(left);
    assert(tl[4] == '[' && tl[eq - 2] == ']');
    assert(tl.contains('[') && tl.contains(']'));
    let right = s.subrange(eq + 1, s.len() as int);
    assert(right[1] == '[');
    assert(right[right.len() - 1] == ']');
    crate::chars::lemma_trimmed_between(right, 1, right.len() as int);
    let tr = trimmed(right);
    assert(tr[0] == '[' && tr[tr.len() - 1] == ']');
    assert(tr.contains('[') && tr.contains(']'));
}

proof fn lemma_batch_parts(d: Seq<char>, v: Seq<char>)
    requires
        plain_list(d),
        plain_list(v),
    ensures
        batch_parts(batch_text(d, v)) == Some((d, v)),
{
    reveal_strlit("let [");
    reveal_strlit("] = [");
    reveal_strlit("]");
    reveal_strlit("let");
    let s = batch_text(d, v);
    let dl = d.len() as int;
    assert(!crate::text::whitespace(s[0]));
    crate::chars::lemma_trimmed_between(s, 0, s.len() as int);
    assert(s.subrange(0, s.len() as int) =~= s);
    let t = trimmed(s);
    assert(t.subrange(0, 3) =~= "let"@);
    let u = t.subrange(3, t.len() as int);
    lemma_trimmed_start_at(u, 1);
    let r1 = trimmed_start(u);
    assert(r1 =~= s.subrange(4, s.len() as int));
    assert(r1[0] == '[');
    assert forall|k: int| 0 <= k < 1 + dl implies #[trigger] r1[k] != ']' by {
        if k >= 1 {
            assert(r1[k] == d[k - 1]);
        }
    }
    assert(r1[1 + dl] == ']');
    lemma_first_at(r1, 0, 1 + dl, ']');
    let w = r1.subrange(2 + dl, r1.len() as int);
    lemma_trimmed_start_at(w, 1);
    let a1 = trimmed_start(w);
    assert(a1 =~= r1.subrange(3 + dl, r1.len() as int));
    assert(a1[0] == '=');
    let w2 = a1.subrange(1, a1.len() as int);
    lemma_trimmed_start_at(w2, 1);
    let a2 = trimmed_start(w2);
    assert(a2 =~= seq!['['] + v + seq![']']);
    let lc = a2.len() - 1;
    assert(a2[lc] == ']');
    assert(crate::chars::last_of(a2, a2.len() as int, ']') == lc);
    assert(a2.subrange(lc + 1, a2.len() as int) =~= Seq::<char>::empty());
    assert(trimmed(Seq::<char>::empty()).len() == 0);
    assert(r1.subrange(1, 1 + dl) =~= d);
    assert(a2.subrange(1, lc) =~= v);
}

/// `let [a, b] = [x, y]` defines `a` as `x` and `b` as `y`, in that order.
pub proof fn batch_definition_read(a: Seq<char>, b: Seq<char>, x: Seq<char>, y: Seq<char>)
    requires
        plain_item(a),
        plain_item(b),
        plain_item(x),
        plain_item(y),
    ensures
        definitions_plan(batch_text(a + ", "@ + b, x + ", "@ + y))
            == Ok::<DefinitionsView, EvalErrorView>(DefinitionsView::Batch(seq![(a, x), (b, y)])),
{
    let d = a + ", "@ + b;
    let v = x + ", "@ + y;
    lemma_pair_list(a, b);
    lemma_pair_list(x, y);
    lemma_pair_split(a, b);
    lemma_pair_split(x, y);
    lemma_batch_counts(d, v);
    lemma_batch_sides(d, v);
    lemma_batch_parts(d, v);
    assert(Seq::new(2, |k: int| (seq![a, b][k], seq![x, y][k])) =~= seq![(a, x), (b, y)]);
}

} // verus!
