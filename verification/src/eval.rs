//! Evaluation of an input line: commands, definitions and expressions.
//!
//! Arithmetic is done outside the library: evaluation proceeds in steps,
//! and each step either finishes, asks for outside work (evaluating a
//! prepared expression, reading a number, writing a number in scientific
//! notation), or asks to be continued.
use vstd::prelude::*;
use crate::VARIABLE_SEPARATOR;
use crate::text::{alphanumeric, is_lower, is_ascii_letter, is_digit, is_alphanumeric, lower, ascii_letter, digit, chars_of, string_of};
use crate::chars::{
    first_from, digit_end, paren_close, trimmed, starts_with, lemma_first_from, lemma_digit_end,
    lemma_paren_close, find_from, scan_digits, scan_paren_close, slice, extend, extend_str, trim,
    starts_with_str, same,
};
use crate::parser::{formatted, format_variables, format_variables_with_exclusion};
use crate::implicit_multiplication::{implicit_multiplication, insert_implicit_multiplication};
use crate::eval_context::{EvalContext, CtxView};
use crate::error::{EvalError, EvalErrorView, DefErrorView};
use crate::chars::{decimal, parsed_usize, decimal_text, parse_usize};
use crate::maps::{
    entries_insert, entries_remove, has_key, lookup, var_insert, var_shift_remove, func_insert,
    func_shift_remove, func_get,
};
use crate::definition_handler::function::{Function, FunctionView};
use crate::definition_handler::parse_function::function_definition;
use crate::definition_handler::parse_variable::{variable_definition_error, value_error};
use crate::definition_handler::definition::{DefinitionsView, definitions_plan};

verus! {

/// Where `find_function_call` finds a call in `c` scanning from `i`: the
/// first lowercase letter, optionally with the separator and digits, that
/// is followed by `(` with a matching `)`.
pub open spec fn call_search(c: Seq<char>, i: int) -> Option<(int, int, Seq<char>, Seq<char>)>
    decreases c.len() - i,
{
    if i < 0 || i >= c.len() {
        None
    } else if is_lower(c[i]) {
        let j = i + 1;
        if j < c.len() && c[j] == VARIABLE_SEPARATOR && digit_end(c, j + 1) == j + 1 {
            call_search(c, j + 1)
        } else {
            let e = if j < c.len() && c[j] == VARIABLE_SEPARATOR {
                digit_end(c, j + 1)
            } else {
                j
            };
            proof {
                if j < c.len() {
                    lemma_digit_end(c, j + 1);
                }
            }
            if e < c.len() && c[e] == '(' {
                let k = paren_close(c, e + 1, 1);
                if k < c.len() {
                    Some((i, k + 1, c.subrange(i, e), c.subrange(e + 1, k)))
                } else {
                    None
                }
            } else {
                call_search(c, e)
            }
        }
    } else {
        call_search(c, i + 1)
    }
}

/// Finds the first call `name(arg)` of a function named by a lowercase
/// letter (optionally with the separator and digits): its start, the
/// position after its `)`, its name and its argument.
pub fn find_function_call(input: &str) -> (r: Result<Option<(usize, usize, String, String)>, EvalError>)
    ensures
        match r {
            Ok(Some((s, e, n, a))) => call_search(input@, 0) == Some((s as int, e as int, n@, a@)),
            Ok(None) => call_search(input@, 0) is None,
            Err(_) => false,
        },
{
    let c = chars_of(input);
    match find_call_in(&c) {
        Some((s, e, n, a)) => Ok(Some((s, e, string_of(&n), string_of(&a)))),
        None => Ok(None),
    }
}

fn find_call_in(c: &Vec<char>) -> (r: Option<(usize, usize, Vec<char>, Vec<char>)>)
    ensures
        match r {
            Some((s, e, n, a)) => call_search(c@, 0) == Some((s as int, e as int, n@, a@)),
            None => call_search(c@, 0) is None,
        },
{
    let n = c.len();
    let mut i: usize = 0;
    while i < n
        invariant
            n == c@.len(),
            i <= n,
            call_search(c@, 0) == call_search(c@, i as int),
        decreases n - i,
    {
        if lower(c[i]) {
            let j = i + 1;
            if j < n && c[j] == VARIABLE_SEPARATOR {
                let de = scan_digits(c, j + 1);
                proof {
                    lemma_digit_end(c@, j as int + 1);
                }
                if de == j + 1 {
                    i = j + 1;
                    continue;
                }
            }
            let e = if j < n && c[j] == VARIABLE_SEPARATOR {
                scan_digits(c, j + 1)
            } else {
                j
            };
            proof {
                if j < n {
                    lemma_digit_end(c@, j as int + 1);
                }
            }
            if e < n && c[e] == '(' {
                let k = scan_paren_close(c, e + 1);
                proof {
                    lemma_paren_close(c@, e as int + 1, 1);
                }
                if k < n {
                    let name = slice(c, i, e);
                    let arg = slice(c, e + 1, k);
                    return Some((i, k + 1, name, arg));
                } else {
                    return None;
                }
            }
            i = e;
        } else {
            i = i + 1;
        }
    }
    None
}

/// `lhs = rhs` where `lhs` is an ASCII letter followed by alphanumeric
/// characters and `rhs` is not empty.
pub open spec fn bare_assignment(s: Seq<char>) -> Option<(Seq<char>, Seq<char>)> {
    let t = trimmed(s);
    let eq = first_from(t, 0, '=');
    if eq >= t.len() {
        None
    } else {
        let lhs = trimmed(t.subrange(0, eq));
        let rhs = trimmed(t.subrange(eq + 1, t.len() as int));
        if rhs.len() == 0 || lhs.len() == 0 || !is_ascii_letter(lhs[0]) {
            None
        } else if exists|k: int| 1 <= k < lhs.len() && !alphanumeric(#[trigger] lhs[k]) {
            None
        } else {
            Some((lhs, rhs))
        }
    }
}

/// Recognises `x = 5` written without `let`.
pub fn parse_bare_assignment(input: &str) -> (r: Option<(String, String)>)
    ensures
        match r {
            Some((l, v)) => bare_assignment(input@) == Some((l@, v@)),
            None => bare_assignment(input@) is None,
        },
{
    let raw = chars_of(input);
    let t = trim(&raw);
    let eq = find_from(&t, 0, '=');
    proof {
        lemma_first_from(t@, 0, '=');
    }
    if eq >= t.len() {
        return None;
    }
    let lr = slice(&t, 0, eq);
    let rr = slice(&t, eq + 1, t.len());
    let lhs = trim(&lr);
    let rhs = trim(&rr);
    if rhs.len() == 0 || lhs.len() == 0 || !ascii_letter(lhs[0]) {
        return None;
    }
    let mut k: usize = 1;
    while k < lhs.len()
        invariant
            1 <= k <= lhs@.len(),
            t@ == trimmed(input@),
            eq == first_from(t@, 0, '='),
            eq < t@.len(),
            lhs@ == trimmed(t@.subrange(0, eq as int)),
            rhs@ == trimmed(t@.subrange(eq + 1, t@.len() as int)),
            rhs@.len() > 0,
            is_ascii_letter(lhs@[0]),
            forall|j: int| 1 <= j < k ==> alphanumeric(#[trigger] lhs@[j]),
        decreases lhs@.len() - k,
    {
        if !is_alphanumeric(lhs[k]) {
            assert(!alphanumeric(lhs@[k as int]));
            return None;
        }
        k = k + 1;
    }
    Some((string_of(&lhs), string_of(&rhs)))
}

/// Every occurrence of `pat` in `s` from `i` on replaced by `rep`, scanning
/// from the left (`str::replace`).
pub open spec fn replaced_from(s: Seq<char>, pat: Seq<char>, rep: Seq<char>, i: int) -> Seq<char>
    decreases s.len() - i,
{
    if i < 0 || i >= s.len() {
        seq![]
    } else if pat.len() > 0 && i + pat.len() <= s.len() && s.subrange(i, i + pat.len()) == pat {
        rep + replaced_from(s, pat, rep, i + pat.len())
    } else {
        seq![s[i]] + replaced_from(s, pat, rep, i + 1)
    }
}

pub fn replace_all(s: &Vec<char>, pat: &Vec<char>, rep: &Vec<char>) -> (r: Vec<char>)
    ensures
        r@ == replaced_from(s@, pat@, rep@, 0),
{
    let n = s.len();
    let m = pat.len();
    let mut out: Vec<char> = Vec::new();
    let mut i: usize = 0;
    while i < n
        invariant
            n == s@.len(),
            m == pat@.len(),
            i <= n,
            replaced_from(s@, pat@, rep@, 0) == out@ + replaced_from(s@, pat@, rep@, i as int),
        decreases n - i,
    {
        let ghost old_out = out@;
        let mut hit = false;
        if m > 0 && m <= n - i {
            let window = slice(s, i, i + m);
            hit = same(&window, pat);
        }
        if hit {
            extend(&mut out, rep);
            assert(out@ + replaced_from(s@, pat@, rep@, (i + m) as int) =~= old_out + (rep@ + replaced_from(s@, pat@, rep@, (i + m) as int)));
            i = i + m;
        } else {
            out.push(s[i]);
            assert(out@ + replaced_from(s@, pat@, rep@, i as int + 1) =~= old_out + (seq![s@[i as int]] + replaced_from(s@, pat@, rep@, i as int + 1)));
            i = i + 1;
        }
    }
    assert(out@ =~= out@ + replaced_from(s@, pat@, rep@, i as int));
    out
}

/// Brackets turned into parentheses.
pub open spec fn brackets_to_parens(s: Seq<char>) -> Seq<char> {
    s.map_values(|ch: char| if ch == '[' { '(' } else if ch == ']' { ')' } else { ch })
}

/// The text handed to the arithmetic evaluator for an expression: names
/// bracketed, implicit products written out, brackets made parentheses.
pub open spec fn prepared(s: Seq<char>, vars: Set<Seq<char>>, funcs: Set<Seq<char>>) -> Seq<char> {
    brackets_to_parens(implicit_multiplication(formatted(s, vars, funcs, None)))
}

/// Prepares an expression for the arithmetic evaluator.
pub fn prepare_expression(eval_ctx: &EvalContext, input: &str) -> (r: String)
    ensures
        r@ == prepared(input@, eval_ctx.var_names(), eval_ctx.func_names()),
{
    let formatted_text = format_variables(input.to_owned(), eval_ctx);
    let implicit = insert_implicit_multiplication(formatted_text.as_str());
    let c = chars_of(implicit.as_str());
    let mut out: Vec<char> = Vec::new();
    let mut i: usize = 0;
    while i < c.len()
        invariant
            i <= c@.len(),
            out@ == brackets_to_parens(c@.subrange(0, i as int)),
        decreases c@.len() - i,
    {
        let ch = c[i];
        if ch == '[' {
            out.push('(');
        } else if ch == ']' {
            out.push(')');
        } else {
            out.push(ch);
        }
        i = i + 1;
        assert(out@ =~= brackets_to_parens(c@.subrange(0, i as int)));
    }
    assert(c@.subrange(0, c@.len() as int) =~= c@);
    string_of(&out)
}

} // verus!

verus! {

/// A number computed outside: the bits of its IEEE-754 double and the text
/// that `Display` gives for it.
pub struct Number {
    pub bits: u64,
    pub text: String,
}

pub struct NumberView {
    pub bits: u64,
    pub text: Seq<char>,
}

impl View for Number {
    type V = NumberView;

    open spec fn view(&self) -> NumberView {
        NumberView { bits: self.bits, text: self.text@ }
    }
}

/// Zero, the value of definitions and removals.
pub open spec fn zero_view() -> NumberView {
    NumberView { bits: 0, text: "0"@ }
}

pub fn zero() -> (z: Number)
    ensures
        z@ == zero_view(),
{
    Number { bits: 0, text: String::from_str("0") }
}

/// Outside work that evaluation waits for.
pub enum Request {
    /// Evaluate a prepared expression with the context's variables.
    Evaluate(String),
    /// Read a decimal number.
    ParseNumber(String),
    /// Write the number with these bits in scientific notation with this many
    /// significant figures.
    Scientific(u64, usize),
}

/// The answer to a request, or `Proceed` after `Step::Continue`.
pub enum Reply {
    Evaluated(Result<Number, String>),
    Parsed(Option<Number>),
    Formatted(String),
    Proceed,
}

/// What a step of evaluation ends with.
pub enum Step {
    Pending(Request),
    Continue,
    Done(Result<Number, EvalError>),
}

pub enum RequestView {
    Evaluate(Seq<char>),
    ParseNumber(Seq<char>),
    Scientific(u64, int),
}

pub enum ReplyView {
    Evaluated(Result<NumberView, Seq<char>>),
    Parsed(Option<NumberView>),
    Formatted(Seq<char>),
    Proceed,
}

pub enum StepView {
    Pending(RequestView),
    Continue,
    Done(Result<NumberView, EvalErrorView>),
}

pub open spec fn result_view(r: Result<Number, EvalError>) -> Result<NumberView, EvalErrorView> {
    match r {
        Ok(n) => Ok(n@),
        Err(e) => Err(e@),
    }
}

impl View for Request {
    type V = RequestView;

    open spec fn view(&self) -> RequestView {
        match self {
            Request::Evaluate(s) => RequestView::Evaluate(s@),
            Request::ParseNumber(s) => RequestView::ParseNumber(s@),
            Request::Scientific(b, p) => RequestView::Scientific(*b, *p as int),
        }
    }
}

impl View for Reply {
    type V = ReplyView;

    open spec fn view(&self) -> ReplyView {
        match self {
            Reply::Evaluated(Ok(n)) => ReplyView::Evaluated(Ok(n@)),
            Reply::Evaluated(Err(m)) => ReplyView::Evaluated(Err(m@)),
            Reply::Parsed(Some(n)) => ReplyView::Parsed(Some(n@)),
            Reply::Parsed(None) => ReplyView::Parsed(None),
            Reply::Formatted(s) => ReplyView::Formatted(s@),
            Reply::Proceed => ReplyView::Proceed,
        }
    }
}

impl View for Step {
    type V = StepView;

    open spec fn view(&self) -> StepView {
        match self {
            Step::Pending(r) => StepView::Pending(r@),
            Step::Continue => StepView::Continue,
            Step::Done(r) => StepView::Done(result_view(*r)),
        }
    }
}

/// The commands an input line can be.
pub enum Command {
    Empty,
    Let,
    Remove(Seq<char>),
    Precision(Seq<char>),
    Toggle,
    Sci(Seq<char>),
    Bare(Seq<char>, Seq<char>),
    Expression,
}

/// Which command the trimmed input `t` is.
pub open spec fn command(t: Seq<char>) -> Command {
    if t.len() == 0 {
        Command::Empty
    } else if starts_with(t, "let "@) {
        Command::Let
    } else if starts_with(t, "remove "@) {
        Command::Remove(trimmed(t.subrange(7, t.len() as int)))
    } else if starts_with(t, "delete "@) {
        Command::Remove(trimmed(t.subrange(7, t.len() as int)))
    } else if starts_with(t, "rm "@) {
        Command::Remove(trimmed(t.subrange(3, t.len() as int)))
    } else if starts_with(t, "precision "@) {
        Command::Precision(trimmed(t.subrange(10, t.len() as int)))
    } else if t == "sci toggle"@ {
        Command::Toggle
    } else if starts_with(t, "sci "@) {
        Command::Sci(trimmed(t.subrange(4, t.len() as int)))
    } else {
        match bare_assignment(t) {
            Some((l, r)) => Command::Bare(l, r),
            None => Command::Expression,
        }
    }
}

} // verus!

verus! {

/// The name under which the `n`-th result is kept.
pub open spec fn line_name(n: int) -> Seq<char> {
    "lin"@ + seq![VARIABLE_SEPARATOR] + decimal(n as nat)
}

/// The context after an expression's result: the counter advanced and the
/// result kept as the next line.
pub open spec fn recorded(c: CtxView, bits: u64) -> CtxView {
    CtxView { counter: c.counter + 1, vars: entries_insert(c.vars, line_name(c.counter + 1), bits), ..c }
}

/// The context with variable `name` (re)defined as the last variable.
pub open spec fn with_variable(c: CtxView, name: Seq<char>, bits: u64) -> CtxView {
    CtxView { vars: entries_insert(entries_remove(c.vars, name), name, bits), ..c }
}

/// The context with function `f` (re)defined as the last function.
pub open spec fn with_function(c: CtxView, f: FunctionView) -> CtxView {
    CtxView { funcs: entries_insert(entries_remove(c.funcs, f.name), f.name, f), ..c }
}

/// The context with one more entry in the list of recent definitions.
pub open spec fn with_recent(c: CtxView, p: (Seq<char>, Seq<char>)) -> CtxView {
    CtxView { recently: c.recently.push(p), ..c }
}

pub open spec fn parse_error(m: Seq<char>) -> Result<NumberView, EvalErrorView> {
    Err(EvalErrorView::Parse(m))
}

/// The result and context of `remove name`.
pub open spec fn removal(c: CtxView, n: Seq<char>) -> (CtxView, Result<NumberView, EvalErrorView>) {
    if n.len() == 0 {
        (c, parse_error("Usage: remove <name>  (e.g., remove x, rm f)"@))
    } else {
        let found = has_key(c.vars, n) || has_key(c.funcs, n);
        let c2 = CtxView { vars: entries_remove(c.vars, n), funcs: entries_remove(c.funcs, n), ..c };
        (c2, if found {
            Ok(zero_view())
        } else {
            parse_error("'"@ + n + "' not found. Cannot remove undefined variable or function."@)
        })
    }
}

/// The result and context of `precision arg`.
pub open spec fn precision_setting(c: CtxView, a: Seq<char>) -> (CtxView, Result<NumberView, EvalErrorView>) {
    match parsed_usize(a) {
        Some(k) => if 1 <= k <= 15 {
            (CtxView { precision: k as int, ..c }, parse_error("Precision set to "@ + decimal(k) + " significant figures"@))
        } else {
            (c, parse_error("Precision must be between 1 and 15"@))
        },
        None => (c, parse_error("Usage: precision <number>  (e.g., precision 6)"@)),
    }
}

/// A function body ready for evaluation at an argument whose value reads
/// `text`: names bracketed, with the parameter bracketed as well, then each
/// bracketed parameter replaced by `(text)`.
pub open spec fn substituted(f: FunctionView, text: Seq<char>, c: CtxView) -> Seq<char> {
    replaced_from(
        formatted(f.body, c.var_names(), c.func_names(), Some(f.param)),
        seq!['['] + f.param + seq![']'],
        seq!['('] + text + seq![')'],
        0,
    )
}

/// What an evaluation in progress waits for, innermost last.
pub enum FrameView {
    /// The number in `sci arg`, read outside.
    SciParse(Seq<char>),
    /// The value of the expression in `sci arg`.
    SciExpr,
    /// The scientific notation of a number, written outside.
    SciFormat,
    /// The value of a prepared expression, computed outside.
    Meval,
    /// The value of the call at `start..end` of the expression.
    Calls(Seq<char>, int, int),
    /// The value of the argument of the function.
    FuncArg(FunctionView),
    /// The value of the variable defined by the pair at this index.
    VarValue(Seq<(Seq<char>, Seq<char>)>, int, bool),
}

/// How a stage of evaluation ends: with a value, waiting for outside work,
/// or with an input to evaluate next, whose value goes to the innermost frame.
pub enum OutcomeView {
    Value(Result<NumberView, EvalErrorView>),
    Wait(RequestView),
    Start(Seq<char>),
}

pub open spec fn value(r: Result<NumberView, EvalErrorView>) -> OutcomeView {
    OutcomeView::Value(r)
}

/// Processes the definitions from index `j` on: functions are defined at
/// once, a variable waits for its value.
pub open spec fn definitions_from_index(c: CtxView, pairs: Seq<(Seq<char>, Seq<char>)>, j: int, single: bool) -> (CtxView, Seq<FrameView>, OutcomeView)
    decreases pairs.len() - j,
{
    if j < 0 || j >= pairs.len() {
        (c, seq![], value(Ok(zero_view())))
    } else {
        let n = pairs[j].0;
        let v = pairs[j].1;
        if n.contains('(') && n.contains(')') {
            match function_definition(n, v, c.var_names()) {
                Err(e) => (c, seq![], value(Err(e))),
                Ok(f) => {
                    let c2 = with_function(c, f);
                    let c3 = if single { c2 } else { with_recent(c2, pairs[j]) };
                    definitions_from_index(c3, pairs, j + 1, single)
                },
            }
        } else {
            match variable_definition_error(n, v, c.func_names()) {
                Some(e) => (c, seq![], value(Err(e))),
                None => (c, seq![FrameView::VarValue(pairs, j, single)], OutcomeView::Start(v)),
            }
        }
    }
}

/// A `let` statement: the recent definitions are cleared, then its
/// definitions are made in order.
pub open spec fn let_statement(c: CtxView, t: Seq<char>) -> (CtxView, Seq<FrameView>, OutcomeView) {
    let c1 = CtxView { recently: seq![], ..c };
    match definitions_plan(t) {
        Err(e) => (c1, seq![], value(Err(e))),
        Ok(DefinitionsView::Batch(p)) => definitions_from_index(c1, p, 0, false),
        Ok(DefinitionsView::Single(n, v)) => definitions_from_index(with_recent(c1, (n, v)), seq![(n, v)], 0, true),
    }
}

/// The next user-function call of an expression is evaluated; without one,
/// the prepared expression is handed out.
pub open spec fn expression_calls(c: CtxView, t: Seq<char>) -> (CtxView, Seq<FrameView>, OutcomeView) {
    match call_search(t, 0) {
        Some((st, en, name, arg)) => if has_key(c.funcs, name) {
            (c, seq![FrameView::Calls(t, st, en), FrameView::FuncArg(lookup(c.funcs, name)->0)], OutcomeView::Start(arg))
        } else {
            (c, seq![FrameView::Meval], OutcomeView::Wait(RequestView::Evaluate(prepared(t, c.var_names(), c.func_names()))))
        },
        None => (c, seq![FrameView::Meval], OutcomeView::Wait(RequestView::Evaluate(prepared(t, c.var_names(), c.func_names())))),
    }
}

/// An expression.
pub open spec fn expression(c: CtxView, t: Seq<char>) -> (CtxView, Seq<FrameView>, OutcomeView) {
    if t.len() == 0 {
        (c, seq![], value(Err(EvalErrorView::EmptyInput)))
    } else {
        expression_calls(c, t)
    }
}

/// An input line (`evaluate_input`).
pub open spec fn input_line(c: CtxView, s: Seq<char>) -> (CtxView, Seq<FrameView>, OutcomeView) {
    let t = trimmed(s);
    match command(t) {
        Command::Empty => (c, seq![], value(Err(EvalErrorView::EmptyInput))),
        Command::Let => let_statement(c, t),
        Command::Remove(n) => (removal(c, n).0, seq![], value(removal(c, n).1)),
        Command::Precision(a) => (precision_setting(c, a).0, seq![], value(precision_setting(c, a).1)),
        Command::Toggle => (CtxView { sci: !c.sci, ..c }, seq![], value(parse_error("Scientific notation "@ + (if !c.sci {
            "enabled"@
        } else {
            "disabled"@
        })))),
        Command::Sci(a) => (c, seq![FrameView::SciParse(a)], OutcomeView::Wait(RequestView::ParseNumber(a))),
        Command::Bare(l, r) => (c, seq![], value(parse_error("Did you mean: `let "@ + l + " = "@ + r + "`?"@))),
        Command::Expression => expression(c, t),
    }
}

/// The value of an inner evaluation delivered to the innermost frame.
pub open spec fn continue_with(c: CtxView, top: FrameView, v: Result<NumberView, EvalErrorView>) -> (CtxView, Seq<FrameView>, OutcomeView) {
    match top {
        FrameView::SciExpr => match v {
            Ok(num) => (c, seq![FrameView::SciFormat], OutcomeView::Wait(RequestView::Scientific(num.bits, c.precision))),
            Err(_) => (c, seq![], value(parse_error("Usage: sci <number>, sci <expression>, or sci toggle"@))),
        },
        FrameView::Calls(t, st, en) => match v {
            Err(e) => (c, seq![], value(Err(e))),
            Ok(num) => expression_calls(c, t.subrange(0, st) + num.text + t.subrange(en, t.len() as int)),
        },
        FrameView::FuncArg(f) => match v {
            Err(e) => (c, seq![], value(Err(e))),
            Ok(num) => (c, seq![], OutcomeView::Start(substituted(f, num.text, c))),
        },
        FrameView::VarValue(pairs, j, single) => match v {
            Err(e) => (c, seq![], value(Err(value_error(pairs[j].0, e)))),
            Ok(num) => {
                let c2 = with_variable(c, pairs[j].0, num.bits);
                if single {
                    (c2, seq![], value(Ok(num)))
                } else {
                    definitions_from_index(with_recent(c2, pairs[j]), pairs, j + 1, false)
                }
            },
        },
        _ => (c, seq![], value(v)),
    }
}

/// The innermost frame waits for this kind of reply.
pub open spec fn accepts(top: FrameView, r: ReplyView) -> bool {
    match (top, r) {
        (FrameView::Meval, ReplyView::Evaluated(_)) => true,
        (FrameView::SciParse(_), ReplyView::Parsed(_)) => true,
        (FrameView::SciFormat, ReplyView::Formatted(_)) => true,
        _ => false,
    }
}

/// An outside reply delivered to the innermost frame.
pub open spec fn continue_reply(c: CtxView, top: FrameView, r: ReplyView) -> (CtxView, Seq<FrameView>, OutcomeView) {
    match (top, r) {
        (FrameView::Meval, ReplyView::Evaluated(Ok(num))) => (recorded(c, num.bits), seq![], value(Ok(num))),
        (FrameView::Meval, ReplyView::Evaluated(Err(m))) => (c, seq![], value(parse_error(m))),
        (FrameView::SciParse(_), ReplyView::Parsed(Some(num))) => (c, seq![FrameView::SciFormat], OutcomeView::Wait(RequestView::Scientific(num.bits, c.precision))),
        (FrameView::SciParse(a), ReplyView::Parsed(None)) => {
            let e = expression(c, a);
            (e.0, seq![FrameView::SciExpr] + e.1, e.2)
        },
        (FrameView::SciFormat, ReplyView::Formatted(s)) => (c, seq![], value(parse_error(s))),
        _ => (c, seq![], value(Err(EvalErrorView::EmptyInput))),
    }
}

pub enum CarryView {
    Value(Result<NumberView, EvalErrorView>),
    Start(Seq<char>),
}

/// An evaluation in progress: its frames, innermost last, and what the next
/// step carries in.
pub struct EvaluationView {
    pub frames: Seq<FrameView>,
    pub carry: Option<CarryView>,
}

/// How a stage's outcome ends the step.
pub open spec fn finish(frames: Seq<FrameView>, o: OutcomeView) -> (EvaluationView, StepView) {
    match o {
        OutcomeView::Wait(r) => (EvaluationView { frames, carry: None }, StepView::Pending(r)),
        OutcomeView::Value(v) => if frames.len() == 0 {
            (EvaluationView { frames, carry: None }, StepView::Done(v))
        } else {
            (EvaluationView { frames, carry: Some(CarryView::Value(v)) }, StepView::Continue)
        },
        OutcomeView::Start(t) => (EvaluationView { frames, carry: Some(CarryView::Start(t)) }, StepView::Continue),
    }
}

/// The first step of evaluating `s`.
pub open spec fn start(c: CtxView, s: Seq<char>) -> (EvaluationView, CtxView, StepView) {
    let e = input_line(c, s);
    let f = finish(e.1, e.2);
    (f.0, e.0, f.1)
}

/// The first step of the definitions of a `let` statement.
pub open spec fn start_let(c: CtxView, t: Seq<char>) -> (EvaluationView, CtxView, StepView) {
    let e = let_statement(c, t);
    let f = finish(e.1, e.2);
    (f.0, e.0, f.1)
}

/// The first step of one definition `name = value`.
pub open spec fn start_definition(c: CtxView, name: Seq<char>, value: Seq<char>) -> (EvaluationView, CtxView, StepView) {
    let e = definitions_from_index(c, seq![(name, value)], 0, true);
    let f = finish(e.1, e.2);
    (f.0, e.0, f.1)
}

/// The first step of calling `f` at the argument `arg`: the argument is
/// evaluated first.
pub open spec fn start_call(c: CtxView, f: FunctionView, arg: Seq<char>) -> (EvaluationView, CtxView, StepView) {
    let r = finish(seq![FrameView::FuncArg(f)], OutcomeView::Start(arg));
    (r.0, c, r.1)
}

/// The machine takes this reply in its present state.
pub open spec fn awaits(m: EvaluationView, r: ReplyView) -> bool {
    match m.carry {
        Some(CarryView::Start(_)) => r == ReplyView::Proceed,
        Some(CarryView::Value(_)) => r == ReplyView::Proceed && m.frames.len() > 0,
        None => m.frames.len() > 0 && accepts(m.frames.last(), r),
    }
}

/// The next step.
pub open spec fn next(m: EvaluationView, c: CtxView, r: ReplyView) -> (EvaluationView, CtxView, StepView) {
    match m.carry {
        Some(CarryView::Start(t)) => {
            let e = input_line(c, t);
            let f = finish(m.frames + e.1, e.2);
            (f.0, e.0, f.1)
        },
        Some(CarryView::Value(v)) => {
            let e = continue_with(c, m.frames.last(), v);
            let f = finish(m.frames.drop_last() + e.1, e.2);
            (f.0, e.0, f.1)
        },
        None => {
            let e = continue_reply(c, m.frames.last(), r);
            let f = finish(m.frames.drop_last() + e.1, e.2);
            (f.0, e.0, f.1)
        },
    }
}

} // verus!

verus! {

/// What an evaluation in progress waits for (see `FrameView`).
pub enum Frame {
    SciParse(Vec<char>),
    SciExpr,
    SciFormat,
    Meval,
    Calls(Vec<char>, usize, usize),
    FuncArg(Function),
    VarValue(Vec<(String, String)>, usize, bool),
}

pub open spec fn pairs_view(p: Seq<(String, String)>) -> Seq<(Seq<char>, Seq<char>)> {
    p.map_values(|q: (String, String)| (q.0@, q.1@))
}

impl View for Frame {
    type V = FrameView;

    open spec fn view(&self) -> FrameView {
        match self {
            Frame::SciParse(a) => FrameView::SciParse(a@),
            Frame::SciExpr => FrameView::SciExpr,
            Frame::SciFormat => FrameView::SciFormat,
            Frame::Meval => FrameView::Meval,
            Frame::Calls(t, s, e) => FrameView::Calls(t@, *s as int, *e as int),
            Frame::FuncArg(f) => FrameView::FuncArg(f@),
            Frame::VarValue(p, j, single) => FrameView::VarValue(pairs_view(p@), *j as int, *single),
        }
    }
}

pub open spec fn frames_view(f: Seq<Frame>) -> Seq<FrameView> {
    f.map_values(|x: Frame| x@)
}

/// How a stage of evaluation ends (see `OutcomeView`).
pub enum Outcome {
    Value(Result<Number, EvalError>),
    Wait(Request),
    Start(Vec<char>),
}

impl View for Outcome {
    type V = OutcomeView;

    open spec fn view(&self) -> OutcomeView {
        match self {
            Outcome::Value(r) => OutcomeView::Value(result_view(*r)),
            Outcome::Wait(r) => OutcomeView::Wait(r@),
            Outcome::Start(t) => OutcomeView::Start(t@),
        }
    }
}

/// The fields of a context that evaluation does not touch stay the same.
pub open spec fn rest_unchanged(a: &EvalContext, b: &EvalContext) -> bool {
    a.history_entries == b.history_entries && a.digit_threshold == b.digit_threshold
}

/// The effect of a stage: context after, frames pushed, outcome.
pub open spec fn effect_holds(
    c0: &EvalContext,
    c1: &EvalContext,
    f0: Seq<Frame>,
    f1: Seq<Frame>,
    o: OutcomeView,
    e: (CtxView, Seq<FrameView>, OutcomeView),
) -> bool {
    &&& c1@ == e.0
    &&& frames_view(f1) == frames_view(f0) + e.1
    &&& o == e.2
    &&& c1.wf()
    &&& rest_unchanged(c0, c1)
}

pub(crate) fn push_frame(frames: &mut Vec<Frame>, f: Frame)
    ensures
        frames_view(final(frames)@) == frames_view(old(frames)@).push(f@),
        frames_wf(frames_view(old(frames)@)) && frame_wf(f@) ==> frames_wf(frames_view(final(frames)@)),
{
    let ghost before = frames@;
    let ghost fv = f@;
    frames.push(f);
    assert(frames_view(frames@) =~= frames_view(before).push(fv));
}

fn parse_err(v: &Vec<char>) -> (r: Result<Number, EvalError>)
    ensures
        result_view(r) == parse_error(v@),
{
    Err(EvalError::ParseError(string_of(v)))
}

fn keep_line(ctx: &mut EvalContext, bits: u64)
    requires
        old(ctx).wf(),
        old(ctx).counter < usize::MAX,
    ensures
        final(ctx)@ == recorded(old(ctx)@, bits),
        final(ctx).wf(),
        rest_unchanged(old(ctx), final(ctx)),
{
    ctx.counter = ctx.counter + 1;
    let mut name = chars_of("lin");
    name.push(VARIABLE_SEPARATOR);
    let digits = decimal_text(ctx.counter);
    extend(&mut name, &digits);
    assert(name@ =~= line_name(old(ctx).counter + 1));
    var_insert(&mut ctx.defined_vars, string_of(&name), bits);
    assert(ctx@.recently =~= old(ctx)@.recently);
}

fn define_variable(ctx: &mut EvalContext, name: &String, bits: u64)
    requires
        old(ctx).wf(),
    ensures
        final(ctx)@ == with_variable(old(ctx)@, name@, bits),
        final(ctx).wf(),
        rest_unchanged(old(ctx), final(ctx)),
        final(ctx).counter == old(ctx).counter,
{
    let _ = var_shift_remove(&mut ctx.defined_vars, name.as_str());
    var_insert(&mut ctx.defined_vars, name.clone(), bits);
    assert(ctx@.recently =~= old(ctx)@.recently);
}

fn define_function(ctx: &mut EvalContext, f: Function)
    requires
        old(ctx).wf(),
    ensures
        final(ctx)@ == with_function(old(ctx)@, f@),
        final(ctx).wf(),
        rest_unchanged(old(ctx), final(ctx)),
        final(ctx).counter == old(ctx).counter,
{
    let name = f.func_name.clone();
    let _ = func_shift_remove(&mut ctx.defined_funcs, name.as_str());
    func_insert(&mut ctx.defined_funcs, name, f);
    assert(ctx@.recently =~= old(ctx)@.recently);
}

fn note_recent(ctx: &mut EvalContext, p: &(String, String))
    requires
        old(ctx).wf(),
    ensures
        final(ctx)@ == with_recent(old(ctx)@, (p.0@, p.1@)),
        final(ctx).wf(),
        rest_unchanged(old(ctx), final(ctx)),
        final(ctx).counter == old(ctx).counter,
{
    let ghost before = ctx.recently_assigned@;
    ctx.recently_assigned.push((p.0.clone(), p.1.clone()));
    assert(ctx@.recently =~= old(ctx)@.recently.push((p.0@, p.1@)));
}

} // verus!

verus! {

/// A frame whose positions are in range.
pub open spec fn frame_wf(f: FrameView) -> bool {
    match f {
        FrameView::Calls(t, st, en) => 0 <= st <= en <= t.len(),
        FrameView::VarValue(p, j, single) => 0 <= j < p.len(),
        _ => true,
    }
}

pub open spec fn frames_wf(fs: Seq<FrameView>) -> bool {
    forall|i: int| 0 <= i < fs.len() ==> frame_wf(#[trigger] fs[i])
}

pub proof fn lemma_call_search(c: Seq<char>, i: int)
    requires
        0 <= i,
    ensures
        call_search(c, i) matches Some((st, en, n, a)) ==> 0 <= st < en <= c.len(),
    decreases c.len() - i,
{
    if i < c.len() {
        if is_lower(c[i]) {
            let j = i + 1;
            if j < c.len() && c[j] == VARIABLE_SEPARATOR && digit_end(c, j + 1) == j + 1 {
                lemma_call_search(c, j + 1);
            } else {
                if j < c.len() {
                    lemma_digit_end(c, j + 1);
                }
                let e = if j < c.len() && c[j] == VARIABLE_SEPARATOR {
                    digit_end(c, j + 1)
                } else {
                    j
                };
                if e < c.len() && c[e] == '(' {
                    lemma_paren_close(c, e + 1, 1);
                } else {
                    lemma_call_search(c, e);
                }
            }
        } else {
            lemma_call_search(c, i + 1);
        }
    }
}

pub(crate) fn run_definitions(ctx: &mut EvalContext, frames: &mut Vec<Frame>, pairs: Vec<(String, String)>, j: usize, single: bool) -> (o: Outcome)
    requires
        old(ctx).wf(),
    ensures
        effect_holds(old(ctx), final(ctx), old(frames)@, final(frames)@, o@, definitions_from_index(old(ctx)@, pairs_view(pairs@), j as int, single)),
        frames_wf(frames_view(old(frames)@)) ==> frames_wf(frames_view(final(frames)@)),
{
    let ghost p = pairs_view(pairs@);
    let ghost c0 = ctx@;
    let mut i = j;
    while i < pairs.len()
        invariant
            p == pairs_view(pairs@),
            c0 == old(ctx)@,
            definitions_from_index(c0, p, j as int, single) == definitions_from_index(ctx@, p, i as int, single),
            ctx.wf(),
            rest_unchanged(old(ctx), ctx),
            frames@ == old(frames)@,
            j <= i || i >= pairs@.len(),
        decreases pairs@.len() - i,
    {
        let ghost pi = p[i as int];
        assert(pi == (pairs@[i as int].0@, pairs@[i as int].1@));
        assert(frames_view(frames@) =~= frames_view(old(frames)@) + Seq::<FrameView>::empty());
        let nc = chars_of(pairs[i].0.as_str());
        if crate::chars::has_char(&nc, '(') && crate::chars::has_char(&nc, ')') {
            match crate::definition_handler::parse_function::parse_function_definition(ctx, pairs[i].0.as_str(), pairs[i].1.as_str()) {
                Err(e) => {
                    return Outcome::Value(Err(e));
                },
                Ok(f) => {
                    define_function(ctx, f);
                    if !single {
                        note_recent(ctx, &pairs[i]);
                    }
                    i = i + 1;
                },
            }
        } else {
            match crate::definition_handler::parse_variable::parse_variable_definition(ctx, pairs[i].0.as_str(), pairs[i].1.as_str()) {
                Err(e) => {
                    return Outcome::Value(Err(e));
                },
                Ok(()) => {
                    let vtext = chars_of(pairs[i].1.as_str());
                    let ghost fr = FrameView::VarValue(p, i as int, single);
                    push_frame(frames, Frame::VarValue(pairs, i, single));
                    return Outcome::Start(vtext);
                },
            }
        }
    }
    assert(frames_view(frames@) =~= frames_view(old(frames)@) + Seq::<FrameView>::empty());
    Outcome::Value(Ok(zero()))
}

} // verus!

verus! {

pub(crate) fn let_proc(ctx: &mut EvalContext, frames: &mut Vec<Frame>, t: &Vec<char>) -> (o: Outcome)
    requires
        old(ctx).wf(),
    ensures
        effect_holds(old(ctx), final(ctx), old(frames)@, final(frames)@, o@, let_statement(old(ctx)@, t@)),
        frames_wf(frames_view(old(frames)@)) ==> frames_wf(frames_view(final(frames)@)),
{
    ctx.recently_assigned.clear();
    assert(ctx@.recently =~= Seq::<(Seq<char>, Seq<char>)>::empty());
    let text = string_of(t);
    match crate::definition_handler::definition::plan_definitions(text.as_str()) {
        Err(e) => {
            assert(frames_view(frames@) =~= frames_view(old(frames)@) + Seq::<FrameView>::empty());
            Outcome::Value(Err(e))
        },
        Ok(crate::definition_handler::definition::Definitions::Batch(p)) => run_definitions(ctx, frames, p, 0, false),
        Ok(crate::definition_handler::definition::Definitions::Single(n, v)) => {
            let pair = (n, v);
            note_recent(ctx, &pair);
            let mut pairs: Vec<(String, String)> = Vec::new();
            pairs.push(pair);
            assert(pairs_view(pairs@) =~= seq![(pair.0@, pair.1@)]);
            run_definitions(ctx, frames, pairs, 0, true)
        },
    }
}

fn evaluate_function_calls(ctx: &mut EvalContext, frames: &mut Vec<Frame>, t: Vec<char>) -> (o: Outcome)
    requires
        old(ctx).wf(),
    ensures
        effect_holds(old(ctx), final(ctx), old(frames)@, final(frames)@, o@, expression_calls(old(ctx)@, t@)),
        frames_wf(frames_view(old(frames)@)) ==> frames_wf(frames_view(final(frames)@)),
{
    proof {
        lemma_call_search(t@, 0);
    }
    match find_call_in(&t) {
        Some((st, en, name, arg)) => {
            let ns = string_of(&name);
            match func_get(&ctx.defined_funcs, ns.as_str()) {
                Some(f) => {
                    let ghost fv = f@;
                    let ghost tv = t@;
                    push_frame(frames, Frame::Calls(t, st, en));
                    push_frame(frames, Frame::FuncArg(f));
                    assert(frames_view(frames@) =~= frames_view(old(frames)@) + seq![FrameView::Calls(tv, st as int, en as int), FrameView::FuncArg(fv)]);
                    return Outcome::Start(arg);
                },
                None => {},
            }
        },
        None => {},
    }
    let text = string_of(&t);
    let prepared_text = prepare_expression(ctx, text.as_str());
    push_frame(frames, Frame::Meval);
    assert(frames_view(frames@) =~= frames_view(old(frames)@) + seq![FrameView::Meval]);
    Outcome::Wait(Request::Evaluate(prepared_text))
}

fn eval_expr(ctx: &mut EvalContext, frames: &mut Vec<Frame>, t: Vec<char>) -> (o: Outcome)
    requires
        old(ctx).wf(),
    ensures
        effect_holds(old(ctx), final(ctx), old(frames)@, final(frames)@, o@, expression(old(ctx)@, t@)),
        frames_wf(frames_view(old(frames)@)) ==> frames_wf(frames_view(final(frames)@)),
{
    if t.len() == 0 {
        assert(frames_view(frames@) =~= frames_view(old(frames)@) + Seq::<FrameView>::empty());
        return Outcome::Value(Err(EvalError::EmptyInput));
    }
    evaluate_function_calls(ctx, frames, t)
}

fn removal_proc(ctx: &mut EvalContext, n: &Vec<char>) -> (r: Result<Number, EvalError>)
    requires
        old(ctx).wf(),
    ensures
        (final(ctx)@, result_view(r)) == removal(old(ctx)@, n@),
        final(ctx).wf(),
        rest_unchanged(old(ctx), final(ctx)),
{
    if n.len() == 0 {
        let m = chars_of("Usage: remove <name>  (e.g., remove x, rm f)");
        return parse_err(&m);
    }
    let ns = string_of(n);
    let removed_var = var_shift_remove(&mut ctx.defined_vars, ns.as_str());
    let removed_func = func_shift_remove(&mut ctx.defined_funcs, ns.as_str());
    assert(ctx@.recently =~= old(ctx)@.recently);
    if removed_var.is_some() || removed_func {
        Ok(zero())
    } else {
        let mut m = chars_of("'");
        extend(&mut m, n);
        extend_str(&mut m, "' not found. Cannot remove undefined variable or function.");
        parse_err(&m)
    }
}

fn precision_proc(ctx: &mut EvalContext, a: &Vec<char>) -> (r: Result<Number, EvalError>)
    requires
        old(ctx).wf(),
    ensures
        (final(ctx)@, result_view(r)) == precision_setting(old(ctx)@, a@),
        final(ctx).wf(),
        rest_unchanged(old(ctx), final(ctx)),
{
    match parse_usize(a) {
        Some(k) => {
            if 1 <= k && k <= 15 {
                ctx.precision = k;
                assert(ctx@.recently =~= old(ctx)@.recently);
                let mut m = chars_of("Precision set to ");
                let d = decimal_text(k);
                extend(&mut m, &d);
                extend_str(&mut m, " significant figures");
                parse_err(&m)
            } else {
                let m = chars_of("Precision must be between 1 and 15");
                parse_err(&m)
            }
        },
        None => {
            let m = chars_of("Usage: precision <number>  (e.g., precision 6)");
            parse_err(&m)
        },
    }
}

} // verus!

verus! {

fn input_proc(ctx: &mut EvalContext, frames: &mut Vec<Frame>, s: &Vec<char>) -> (o: Outcome)
    requires
        old(ctx).wf(),
    ensures
        effect_holds(old(ctx), final(ctx), old(frames)@, final(frames)@, o@, input_line(old(ctx)@, s@)),
        frames_wf(frames_view(old(frames)@)) ==> frames_wf(frames_view(final(frames)@)),
{
    proof {
        reveal_strlit("remove ");
        reveal_strlit("delete ");
        reveal_strlit("rm ");
        reveal_strlit("precision ");
        reveal_strlit("sci ");
    }
    let t = trim(s);
    let ghost tv = t@;
    let ghost c0 = ctx@;
    if t.len() == 0 {
        return Outcome::Value(Err(EvalError::EmptyInput));
    }
    if starts_with_str(&t, "let ") {
        return let_proc(ctx, frames, &t);
    }
    let is_remove = starts_with_str(&t, "remove ");
    let is_delete = starts_with_str(&t, "delete ");
    let is_rm = starts_with_str(&t, "rm ");
    if is_remove || is_delete || is_rm {
        let rest = if is_remove || is_delete {
            slice(&t, 7, t.len())
        } else {
            slice(&t, 3, t.len())
        };
        let n = trim(&rest);
        let r = removal_proc(ctx, &n);
        return Outcome::Value(r);
    }
    if starts_with_str(&t, "precision ") {
        let rest = slice(&t, 10, t.len());
        let a = trim(&rest);
        let r = precision_proc(ctx, &a);
        return Outcome::Value(r);
    }
    if crate::chars::same_str(&t, "sci toggle") {
        ctx.sci_notation_enabled = !ctx.sci_notation_enabled;
        assert(ctx@.recently =~= old(ctx)@.recently);
        let mut m = chars_of("Scientific notation ");
        if ctx.sci_notation_enabled {
            extend_str(&mut m, "enabled");
        } else {
            extend_str(&mut m, "disabled");
        }
        return Outcome::Value(parse_err(&m));
    }
    if starts_with_str(&t, "sci ") {
        let rest = slice(&t, 4, t.len());
        let a = trim(&rest);
        let arg_text = string_of(&a);
        let ghost av = a@;
        push_frame(frames, Frame::SciParse(a));
        assert(frames_view(frames@) =~= frames_view(old(frames)@) + seq![FrameView::SciParse(av)]);
        return Outcome::Wait(Request::ParseNumber(arg_text));
    }
    let text = string_of(&t);
    match parse_bare_assignment(text.as_str()) {
        Some((l, r)) => {
            let mut m = chars_of("Did you mean: `let ");
            extend_str(&mut m, l.as_str());
            extend_str(&mut m, " = ");
            extend_str(&mut m, r.as_str());
            extend_str(&mut m, "`?");
            return Outcome::Value(parse_err(&m));
        },
        None => {},
    }
    eval_expr(ctx, frames, t)
}

} // verus!

verus! {

fn continue_value(ctx: &mut EvalContext, frames: &mut Vec<Frame>, top: Frame, v: Result<Number, EvalError>) -> (o: Outcome)
    requires
        old(ctx).wf(),
        frame_wf(top@),
    ensures
        effect_holds(old(ctx), final(ctx), old(frames)@, final(frames)@, o@, continue_with(old(ctx)@, top@, result_view(v))),
        frames_wf(frames_view(old(frames)@)) ==> frames_wf(frames_view(final(frames)@)),
{
    let ghost topv = top@;
    match top {
        Frame::SciExpr => match v {
            Ok(num) => {
                push_frame(frames, Frame::SciFormat);
                assert(frames_view(frames@) =~= frames_view(old(frames)@) + seq![FrameView::SciFormat]);
                Outcome::Wait(Request::Scientific(num.bits, ctx.precision))
            },
            Err(_) => {
                assert(frames_view(frames@) =~= frames_view(old(frames)@) + Seq::<FrameView>::empty());
                let m = chars_of("Usage: sci <number>, sci <expression>, or sci toggle");
                Outcome::Value(parse_err(&m))
            },
        },
        Frame::Calls(t, st, en) => match v {
            Err(e) => {
                assert(frames_view(frames@) =~= frames_view(old(frames)@) + Seq::<FrameView>::empty());
                Outcome::Value(Err(e))
            },
            Ok(num) => {
                let mut nt = slice(&t, 0, st);
                let txt = chars_of(num.text.as_str());
                extend(&mut nt, &txt);
                let tail = slice(&t, en, t.len());
                extend(&mut nt, &tail);
                evaluate_function_calls(ctx, frames, nt)
            },
        },
        Frame::FuncArg(f) => match v {
            Err(e) => {
                assert(frames_view(frames@) =~= frames_view(old(frames)@) + Seq::<FrameView>::empty());
                Outcome::Value(Err(e))
            },
            Ok(num) => {
                assert(frames_view(frames@) =~= frames_view(old(frames)@) + Seq::<FrameView>::empty());
                let body = format_variables_with_exclusion(f.expr.clone(), ctx, Some(f.var_name.as_str()));
                let bc = chars_of(body.as_str());
                let pc = chars_of(f.var_name.as_str());
                let mut pat: Vec<char> = Vec::new();
                pat.push('[');
                extend(&mut pat, &pc);
                pat.push(']');
                let tc = chars_of(num.text.as_str());
                let mut rep: Vec<char> = Vec::new();
                rep.push('(');
                extend(&mut rep, &tc);
                rep.push(')');
                assert(pat@ =~= seq!['['] + f@.param + seq![']']);
                assert(rep@ =~= seq!['('] + num@.text + seq![')']);
                let input = replace_all(&bc, &pat, &rep);
                Outcome::Start(input)
            },
        },
        Frame::VarValue(pairs, j, single) => match v {
            Err(e) => {
                assert(frames_view(frames@) =~= frames_view(old(frames)@) + Seq::<FrameView>::empty());
                assert(pairs_view(pairs@)[j as int] == (pairs@[j as int].0@, pairs@[j as int].1@));
                Outcome::Value(Err(crate::definition_handler::parse_variable::value_failed(pairs[j].0.as_str(), &e)))
            },
            Ok(num) => {
                assert(pairs_view(pairs@)[j as int] == (pairs@[j as int].0@, pairs@[j as int].1@));
                define_variable(ctx, &pairs[j].0, num.bits);
                if single {
                    assert(frames_view(frames@) =~= frames_view(old(frames)@) + Seq::<FrameView>::empty());
                    Outcome::Value(Ok(num))
                } else {
                    note_recent(ctx, &pairs[j]);
                    assert(j < pairs.len());
                    run_definitions(ctx, frames, pairs, j + 1, false)
                }
            },
        },
        _ => {
            assert(frames_view(frames@) =~= frames_view(old(frames)@) + Seq::<FrameView>::empty());
            Outcome::Value(v)
        },
    }
}

fn continue_outside(ctx: &mut EvalContext, frames: &mut Vec<Frame>, top: Frame, r: Reply) -> (o: Outcome)
    requires
        old(ctx).wf(),
        old(ctx).counter < usize::MAX,
        accepts(top@, r@),
    ensures
        effect_holds(old(ctx), final(ctx), old(frames)@, final(frames)@, o@, continue_reply(old(ctx)@, top@, r@)),
        frames_wf(frames_view(old(frames)@)) ==> frames_wf(frames_view(final(frames)@)),
{
    match (top, r) {
        (Frame::Meval, Reply::Evaluated(Ok(num))) => {
            keep_line(ctx, num.bits);
            assert(frames_view(frames@) =~= frames_view(old(frames)@) + Seq::<FrameView>::empty());
            Outcome::Value(Ok(num))
        },
        (Frame::Meval, Reply::Evaluated(Err(m))) => {
            assert(frames_view(frames@) =~= frames_view(old(frames)@) + Seq::<FrameView>::empty());
            Outcome::Value(Err(EvalError::ParseError(m)))
        },
        (Frame::SciParse(_), Reply::Parsed(Some(num))) => {
            push_frame(frames, Frame::SciFormat);
            assert(frames_view(frames@) =~= frames_view(old(frames)@) + seq![FrameView::SciFormat]);
            Outcome::Wait(Request::Scientific(num.bits, ctx.precision))
        },
        (Frame::SciParse(a), Reply::Parsed(None)) => {
            let ghost av = a@;
            push_frame(frames, Frame::SciExpr);
            let o = eval_expr(ctx, frames, a);
            assert(frames_view(frames@) =~= frames_view(old(frames)@) + (seq![FrameView::SciExpr] + expression(old(ctx)@, av).1));
            o
        },
        (Frame::SciFormat, Reply::Formatted(s)) => {
            assert(frames_view(frames@) =~= frames_view(old(frames)@) + Seq::<FrameView>::empty());
            Outcome::Value(Err(EvalError::ParseError(s)))
        },
        _ => {
            assert(false);
            Outcome::Value(Err(EvalError::EmptyInput))
        },
    }
}

} // verus!

verus! {

/// What the next step carries in (see `CarryView`).
pub enum Carry {
    Value(Result<Number, EvalError>),
    Start(Vec<char>),
}

impl View for Carry {
    type V = CarryView;

    open spec fn view(&self) -> CarryView {
        match self {
            Carry::Value(r) => CarryView::Value(result_view(*r)),
            Carry::Start(t) => CarryView::Start(t@),
        }
    }
}

/// An evaluation in progress.
pub struct Evaluation {
    pub frames: Vec<Frame>,
    pub carry: Option<Carry>,
}

impl View for Evaluation {
    type V = EvaluationView;

    open spec fn view(&self) -> EvaluationView {
        EvaluationView {
            frames: frames_view(self.frames@),
            carry: match self.carry {
                Some(c) => Some(c@),
                None => None,
            },
        }
    }
}

impl Evaluation {
    /// The frames are in range.
    pub open spec fn wf(&self) -> bool {
        frames_wf(self@.frames)
    }
}

pub(crate) fn finish_step(frames: Vec<Frame>, o: Outcome) -> (r: (Evaluation, Step))
    ensures
        (r.0@, r.1@) == finish(frames_view(frames@), o@),
        r.0.frames@ == frames@,
{
    match o {
        Outcome::Wait(req) => (Evaluation { frames, carry: None }, Step::Pending(req)),
        Outcome::Value(v) => {
            if frames.len() == 0 {
                (Evaluation { frames, carry: None }, Step::Done(v))
            } else {
                (Evaluation { frames, carry: Some(Carry::Value(v)) }, Step::Continue)
            }
        },
        Outcome::Start(t) => (Evaluation { frames, carry: Some(Carry::Start(t)) }, Step::Continue),
    }
}

/// Starts evaluating an input line: a command, a `let` statement or an
/// expression. Continue with `Evaluation::resume` until `Step::Done`.
pub fn evaluate_input(eval_ctx: &mut EvalContext, init_input: &str) -> (r: (Evaluation, Step))
    requires
        old(eval_ctx).wf(),
    ensures
        (r.0@, final(eval_ctx)@, r.1@) == start(old(eval_ctx)@, init_input@),
        final(eval_ctx).wf(),
        rest_unchanged(old(eval_ctx), final(eval_ctx)),
        r.0.wf(),
{
    let s = chars_of(init_input);
    let mut frames: Vec<Frame> = Vec::new();
    assert(frames_wf(frames_view(frames@)));
    let o = input_proc(eval_ctx, &mut frames, &s);
    assert(frames_view(frames@) =~= input_line(old(eval_ctx)@, init_input@).1);
    finish_step(frames, o)
}

impl Evaluation {
    /// Takes the next step, with the reply to the last step's request (or
    /// `Reply::Proceed` after `Step::Continue`).
    pub fn resume(&mut self, eval_ctx: &mut EvalContext, reply: Reply) -> (s: Step)
        requires
            awaits(old(self)@, reply@),
            old(self).wf(),
            old(eval_ctx).wf(),
            old(eval_ctx).counter < usize::MAX,
        ensures
            (final(self)@, final(eval_ctx)@, s@) == next(old(self)@, old(eval_ctx)@, reply@),
            final(self).wf(),
            final(eval_ctx).wf(),
            rest_unchanged(old(eval_ctx), final(eval_ctx)),
    {
        let mut frames: Vec<Frame> = Vec::new();
        core::mem::swap(&mut frames, &mut self.frames);
        let carry = self.carry.take();
        let ghost f0 = frames_view(frames@);
        let o = match carry {
            Some(Carry::Start(t)) => {
                let ghost before = frames@;
                let o = input_proc(eval_ctx, &mut frames, &t);
                o
            },
            Some(Carry::Value(v)) => {
                let top = frames.pop().unwrap();
                assert(frames_view(frames@) =~= f0.drop_last());
                assert(top@ == f0.last());
                assert(frame_wf(f0[f0.len() - 1]));
                continue_value(eval_ctx, &mut frames, top, v)
            },
            None => {
                let top = frames.pop().unwrap();
                assert(frames_view(frames@) =~= f0.drop_last());
                assert(top@ == f0.last());
                continue_outside(eval_ctx, &mut frames, top, reply)
            },
        };
        let (m, s) = finish_step(frames, o);
        *self = m;
        s
    }
}

} // verus!

verus! {

/// A variable defined (or defined again) by `let` becomes the last variable,
/// holding its new value; no other variable shares its name.
pub proof fn defined_variable_is_last(c: CtxView, name: Seq<char>, bits: u64)
    requires
        c.wf(),
    ensures
        with_variable(c, name, bits).vars.last() == (name, bits),
        lookup(with_variable(c, name, bits).vars, name) == Some(bits),
        with_variable(c, name, bits).wf(),
{
    crate::maps::lemma_remove(c.vars, name);
    crate::maps::lemma_insert_new(entries_remove(c.vars, name), name, bits);
}

/// A function defined (or defined again) by `let` becomes the last function.
pub proof fn defined_function_is_last(c: CtxView, f: FunctionView)
    requires
        c.wf(),
    ensures
        with_function(c, f).funcs.last() == (f.name, f),
        lookup(with_function(c, f).funcs, f.name) == Some(f),
        with_function(c, f).wf(),
{
    crate::maps::lemma_remove(c.funcs, f.name);
    crate::maps::lemma_insert_new(entries_remove(c.funcs, f.name), f.name, f);
}

/// After `remove name` (or `delete`, `rm`) no variable and no function has
/// that name.
pub proof fn removed_name_is_gone(c: CtxView, name: Seq<char>)
    requires
        c.wf(),
        name.len() > 0,
    ensures
        !has_key(removal(c, name).0.vars, name),
        !has_key(removal(c, name).0.funcs, name),
        removal(c, name).0.wf(),
{
    crate::maps::lemma_remove(c.vars, name);
    crate::maps::lemma_remove(c.funcs, name);
}

/// A result computed for an expression is kept as the next line: the line
/// counter advances and `lin_<counter>` holds the result.
pub proof fn result_kept_as_line(m: EvaluationView, c: CtxView, n: NumberView)
    requires
        c.wf(),
        m.carry is None,
        m.frames.len() > 0,
        m.frames.last() == FrameView::Meval,
    ensures
        next(m, c, ReplyView::Evaluated(Ok(n))).1.counter == c.counter + 1,
        lookup(next(m, c, ReplyView::Evaluated(Ok(n))).1.vars, line_name(c.counter + 1)) == Some(n.bits),
{
    let k = line_name(c.counter + 1);
    if has_key(c.vars, k) {
        let p = crate::maps::key_pos(c.vars, k);
        let r = c.vars.update(p, (k, n.bits));
        assert(r[p].0 == k);
        assert forall|i: int, j: int| 0 <= i < r.len() && 0 <= j < r.len() && i != j implies #[trigger] r[i].0 != #[trigger] r[j].0 by {
            if i != p {
                assert(r[i] == c.vars[i]);
            }
            if j != p {
                assert(r[j] == c.vars[j]);
            }
        }
        crate::maps::lemma_key_pos(r, k, p);
    } else {
        crate::maps::lemma_insert_new(c.vars, k, n.bits);
    }
}

/// A line that reads `sci toggle`, entered twice, gives the setting back
/// and changes nothing else.
pub proof fn toggle_twice(c: CtxView, s: Seq<char>)
    requires
        trimmed(s) == "sci toggle"@,
    ensures
        input_line(c, s).0 == (CtxView { sci: !c.sci, ..c }),
        input_line(c, s).1 == Seq::<FrameView>::empty(),
        input_line(c, s).2 == value(parse_error("Scientific notation "@ + (if !c.sci { "enabled"@ } else { "disabled"@ }))),
        input_line(input_line(c, s).0, s).0 == c,
{
    reveal_strlit("sci toggle");
    reveal_strlit("let ");
    reveal_strlit("remove ");
    reveal_strlit("delete ");
    reveal_strlit("rm ");
    reveal_strlit("precision ");
    let t = trimmed(s);
    assert(!starts_with(t, "let "@)) by {
        assert(t.subrange(0, 4)[0] != "let "@[0]);
    }
    assert(!starts_with(t, "remove "@)) by {
        assert(t.subrange(0, 7)[0] != "remove "@[0]);
    }
    assert(!starts_with(t, "delete "@)) by {
        assert(t.subrange(0, 7)[0] != "delete "@[0]);
    }
    assert(!starts_with(t, "rm "@)) by {
        assert(t.subrange(0, 3)[0] != "rm "@[0]);
    }
    assert(!starts_with(t, "precision "@)) by {
        assert(t.subrange(0, 10)[0] != "precision "@[0]);
    }
    assert(command(t) == Command::Toggle);
}

/// The precision stays within 1 to 15 whatever `precision` is given.
pub proof fn precision_stays_in_range(c: CtxView, a: Seq<char>)
    requires
        1 <= c.precision <= 15,
    ensures
        1 <= precision_setting(c, a).0.precision <= 15,
{
}

} // verus!

verus! {

/// The frame takes the answer to this request.
pub open spec fn waits_for(f: FrameView, r: RequestView) -> bool {
    match r {
        RequestView::Evaluate(_) => f == FrameView::Meval,
        RequestView::ParseNumber(_) => f is SciParse,
        RequestView::Scientific(_, _) => f == FrameView::SciFormat,
    }
}

/// A stage that waits has pushed, last, the frame that takes the answer.
pub open spec fn stage_ok(e: (CtxView, Seq<FrameView>, OutcomeView)) -> bool {
    e.2 matches OutcomeView::Wait(r) ==> e.1.len() > 0 && waits_for(e.1.last(), r)
}

/// The reply a caller gives after a step: `Proceed` after `Continue`, and for
/// a pending request a reply of its kind.
pub open spec fn answers(s: StepView, r: ReplyView) -> bool {
    match s {
        StepView::Continue => r == ReplyView::Proceed,
        StepView::Pending(RequestView::Evaluate(_)) => r is Evaluated,
        StepView::Pending(RequestView::ParseNumber(_)) => r is Parsed,
        StepView::Pending(RequestView::Scientific(_, _)) => r is Formatted,
        StepView::Done(_) => false,
    }
}

proof fn lemma_definitions_never_wait(c: CtxView, pairs: Seq<(Seq<char>, Seq<char>)>, j: int, single: bool)
    ensures
        !(definitions_from_index(c, pairs, j, single).2 is Wait),
    decreases pairs.len() - j,
{
    if !(j < 0 || j >= pairs.len()) {
        let n = pairs[j].0;
        let v = pairs[j].1;
        if n.contains('(') && n.contains(')') {
            match function_definition(n, v, c.var_names()) {
                Err(e) => {},
                Ok(f) => {
                    let c2 = with_function(c, f);
                    let c3 = if single { c2 } else { with_recent(c2, pairs[j]) };
                    lemma_definitions_never_wait(c3, pairs, j + 1, single);
                },
            }
        }
    }
}

proof fn lemma_stage_expression(c: CtxView, t: Seq<char>)
    ensures
        stage_ok(expression_calls(c, t)),
        stage_ok(expression(c, t)),
{
}

proof fn lemma_stage_input(c: CtxView, s: Seq<char>)
    ensures
        stage_ok(input_line(c, s)),
{
    let t = trimmed(s);
    lemma_stage_expression(c, t);
    if command(t) == Command::Let {
        let c1 = CtxView { recently: seq![], ..c };
        match definitions_plan(t) {
            Err(e) => {},
            Ok(DefinitionsView::Batch(p)) => lemma_definitions_never_wait(c1, p, 0, false),
            Ok(DefinitionsView::Single(n, v)) => lemma_definitions_never_wait(with_recent(c1, (n, v)), seq![(n, v)], 0, true),
        }
    }
}

proof fn lemma_stage_continue(c: CtxView, top: FrameView, v: Result<NumberView, EvalErrorView>)
    ensures
        stage_ok(continue_with(c, top, v)),
{
    match top {
        FrameView::Calls(t, st, en) => match v {
            Err(e) => {},
            Ok(num) => lemma_stage_expression(c, t.subrange(0, st) + num.text + t.subrange(en, t.len() as int)),
        },
        FrameView::VarValue(pairs, j, single) => match v {
            Err(e) => {},
            Ok(num) => {
                let c2 = with_variable(c, pairs[j].0, num.bits);
                lemma_definitions_never_wait(with_recent(c2, pairs[j]), pairs, j + 1, false);
            },
        },
        _ => {},
    }
}

proof fn lemma_stage_reply(c: CtxView, top: FrameView, r: ReplyView)
    ensures
        stage_ok(continue_reply(c, top, r)),
{
    if let (FrameView::SciParse(a), ReplyView::Parsed(None)) = (top, r) {
        lemma_stage_expression(c, a);
        let e = expression(c, a);
        if e.2 is Wait {
            assert((seq![FrameView::SciExpr] + e.1).last() == e.1.last());
        }
    }
}

proof fn lemma_finish_takes_answer(prefix: Seq<FrameView>, e: (CtxView, Seq<FrameView>, OutcomeView), r: ReplyView)
    requires
        stage_ok(e),
        answers(finish(prefix + e.1, e.2).1, r),
    ensures
        awaits(finish(prefix + e.1, e.2).0, r),
{
    let frames = prefix + e.1;
    if let OutcomeView::Wait(req) = e.2 {
        assert(frames.last() == e.1.last());
    }
}

/// Evaluation does not get stuck: after the first step, unless it is `Done`,
/// the machine takes the reply that the step asks for.
pub proof fn start_takes_its_answer(c: CtxView, s: Seq<char>, r: ReplyView)
    requires
        answers(start(c, s).2, r),
    ensures
        awaits(start(c, s).0, r),
{
    lemma_stage_input(c, s);
    let e = input_line(c, s);
    assert(Seq::<FrameView>::empty() + e.1 =~= e.1);
    lemma_finish_takes_answer(Seq::<FrameView>::empty(), e, r);
}

/// Evaluation does not get stuck: after each further step, unless it is
/// `Done`, the machine takes the reply that the step asks for.
pub proof fn next_takes_its_answer(m: EvaluationView, c: CtxView, r0: ReplyView, r: ReplyView)
    requires
        awaits(m, r0),
        answers(next(m, c, r0).2, r),
    ensures
        awaits(next(m, c, r0).0, r),
{
    match m.carry {
        Some(CarryView::Start(t)) => {
            lemma_stage_input(c, t);
            lemma_finish_takes_answer(m.frames, input_line(c, t), r);
        },
        Some(CarryView::Value(v)) => {
            lemma_stage_continue(c, m.frames.last(), v);
            lemma_finish_takes_answer(m.frames.drop_last(), continue_with(c, m.frames.last(), v), r);
        },
        None => {
            lemma_stage_reply(c, m.frames.last(), r0);
            lemma_finish_takes_answer(m.frames.drop_last(), continue_reply(c, m.frames.last(), r0), r);
        },
    }
}

} // verus!

verus! {

/// The same holds of the first steps of a `let` statement, of one
/// definition, and of a function call.
pub proof fn other_starts_take_their_answer(
    c: CtxView,
    t: Seq<char>,
    name: Seq<char>,
    value: Seq<char>,
    f: FunctionView,
    arg: Seq<char>,
    r: ReplyView,
)
    ensures
        answers(start_let(c, t).2, r) ==> awaits(start_let(c, t).0, r),
        answers(start_definition(c, name, value).2, r) ==> awaits(start_definition(c, name, value).0, r),
        answers(start_call(c, f, arg).2, r) ==> awaits(start_call(c, f, arg).0, r),
{
    let c1 = CtxView { recently: seq![], ..c };
    match definitions_plan(t) {
        Err(e) => {},
        Ok(DefinitionsView::Batch(p)) => lemma_definitions_never_wait(c1, p, 0, false),
        Ok(DefinitionsView::Single(n, v)) => lemma_definitions_never_wait(with_recent(c1, (n, v)), seq![(n, v)], 0, true),
    }
    lemma_definitions_never_wait(c, seq![(name, value)], 0, true);
    let e1 = let_statement(c, t);
    let e2 = definitions_from_index(c, seq![(name, value)], 0, true);
    assert(Seq::<FrameView>::empty() + e1.1 =~= e1.1);
    assert(Seq::<FrameView>::empty() + e2.1 =~= e2.1);
    if answers(start_let(c, t).2, r) {
        lemma_finish_takes_answer(Seq::<FrameView>::empty(), e1, r);
    }
    if answers(start_definition(c, name, value).2, r) {
        lemma_finish_takes_answer(Seq::<FrameView>::empty(), e2, r);
    }
}

} // verus!

verus! {

proof fn lemma_definitions_keep_vars(c: CtxView, pairs: Seq<(Seq<char>, Seq<char>)>, j: int, single: bool)
    ensures
        definitions_from_index(c, pairs, j, single).0.vars == c.vars,
    decreases pairs.len() - j,
{
    if !(j < 0 || j >= pairs.len()) {
        let n = pairs[j].0;
        let v = pairs[j].1;
        if n.contains('(') && n.contains(')') {
            match function_definition(n, v, c.var_names()) {
                Err(e) => {},
                Ok(f) => {
                    let c2 = with_function(c, f);
                    let c3 = if single { c2 } else { with_recent(c2, pairs[j]) };
                    lemma_definitions_keep_vars(c3, pairs, j + 1, single);
                },
            }
        }
    }
}

/// When the value of a variable being defined arrives, the variable holds
/// it, as the last variable.
pub proof fn defined_value_is_stored(m: EvaluationView, c: CtxView, num: NumberView)
    requires
        c.wf(),
        m.carry == Some(CarryView::Value(Ok(num))),
        m.frames.len() > 0,
        m.frames.last() is VarValue,
    ensures
        ({
            let (p, j, single) = (m.frames.last()->VarValue_0, m.frames.last()->VarValue_1, m.frames.last()->VarValue_2);
            &&& lookup(next(m, c, ReplyView::Proceed).1.vars, p[j].0) == Some(num.bits)
            &&& next(m, c, ReplyView::Proceed).1.vars.last() == (p[j].0, num.bits)
        }),
{
    if let FrameView::VarValue(p, j, single) = m.frames.last() {
        defined_variable_is_last(c, p[j].0, num.bits);
        let c2 = with_variable(c, p[j].0, num.bits);
        if !single {
            lemma_definitions_keep_vars(with_recent(c2, p[j]), p, j + 1, false);
        }
    }
}

} // verus!

verus! {

/// Entering `sci toggle` turns scientific notation over and says so;
/// entering it twice gives the setting back.
pub proof fn sci_toggle_line(c: CtxView)
    ensures
        start(c, "sci toggle"@).1 == (CtxView { sci: !c.sci, ..c }),
        start(c, "sci toggle"@).2 == StepView::Done(Err(EvalErrorView::Parse(
            "Scientific notation "@ + (if !c.sci { "enabled"@ } else { "disabled"@ }),
        ))),
        start(start(c, "sci toggle"@).1, "sci toggle"@).1 == c,
{
    reveal_strlit("sci toggle");
    let s = "sci toggle"@;
    assert(s.len() == 10);
    assert(crate::chars::ws_start(s, 0) == 0);
    assert(crate::chars::ws_end(s, 10) == 10);
    assert(trimmed(s) =~= s);
    toggle_twice(c, s);
}

/// An expression line with no call of a defined function asks for the value
/// of its prepared text. A value that comes back is the result and is kept as
/// the next line `lin_<counter>`; an error leaves the session as it was.
pub proof fn plain_expression_kept_as_line(c: CtxView, s: Seq<char>, n: NumberView, m: Seq<char>)
    requires
        c.wf(),
        command(trimmed(s)) == Command::Expression,
        call_search(trimmed(s), 0) matches Some((st, en, name, arg)) ==> !has_key(c.funcs, name),
    ensures
        start(c, s).1 == c,
        start(c, s).2 == StepView::Pending(RequestView::Evaluate(prepared(trimmed(s), c.var_names(), c.func_names()))),
        next(start(c, s).0, c, ReplyView::Evaluated(Ok(n))).2 == StepView::Done(Ok(n)),
        next(start(c, s).0, c, ReplyView::Evaluated(Ok(n))).1.counter == c.counter + 1,
        lookup(next(start(c, s).0, c, ReplyView::Evaluated(Ok(n))).1.vars, line_name(c.counter + 1)) == Some(n.bits),
        next(start(c, s).0, c, ReplyView::Evaluated(Err(m))).1 == c,
        next(start(c, s).0, c, ReplyView::Evaluated(Err(m))).2 == StepView::Done(Err(EvalErrorView::Parse(m))),
{
    let t = trimmed(s);
    assert(t.len() > 0);
    let m0 = start(c, s).0;
    assert(m0.frames =~= seq![FrameView::Meval]);
    assert(m0.frames.drop_last() + Seq::<FrameView>::empty() =~= Seq::<FrameView>::empty());
    result_kept_as_line(m0, c, n);
}

} // verus!

verus! {

proof fn lemma_digit_run(c: Seq<char>, j: int, m: int)
    requires
        0 <= j,
        0 <= m,
        j + m <= c.len(),
        forall|k: int| j <= k < j + m ==> is_digit(#[trigger] c[k]),
        j + m < c.len() ==> !is_digit(c[j + m]),
    ensures
        digit_end(c, j) == j + m,
    decreases m,
{
    if m > 0 {
        assert(is_digit(c[j]));
        lemma_digit_run(c, j + 1, m - 1);
    }
}

/// A call `name(arg)` whose name is a lowercase letter, optionally with the
/// separator and digits, and whose argument has no parentheses, is found
/// whole: from its first character to after its `)`, with the whole name
/// (subscript included) and the argument.
pub proof fn subscripted_call_found(l: char, ds: Seq<char>, a: Seq<char>)
    requires
        is_lower(l),
        forall|k: int| 0 <= k < ds.len() ==> is_digit(#[trigger] ds[k]),
        !a.contains('('),
        !a.contains(')'),
    ensures
        ({
            let name = if ds.len() == 0 { seq![l] } else { seq![l, VARIABLE_SEPARATOR] + ds };
            call_search(name + seq!['('] + a + seq![')'], 0) == Some((0int, (name.len() + a.len() + 2) as int, name, a))
        }),
{
    let name = if ds.len() == 0 { seq![l] } else { seq![l, VARIABLE_SEPARATOR] + ds };
    let c = name + seq!['('] + a + seq![')'];
    let e = name.len() as int;
    let k = c.len() - 1;
    assert(c[e] == '(');
    assert(c[k] == ')');
    assert forall|t: int| e + 1 <= t < k implies #[trigger] c[t] != '(' && c[t] != ')' by {
        assert(c[t] == a[t - e - 1]);
        if c[t] == '(' {
            assert(a.contains('('));
        }
        if c[t] == ')' {
            assert(a.contains(')'));
        }
    }
    crate::chars::lemma_plain_close(c, e + 1, k);
    assert(c[0] == l);
    if ds.len() > 0 {
        assert(c[1] == VARIABLE_SEPARATOR);
        assert forall|t: int| 2 <= t < 2 + ds.len() implies is_digit(#[trigger] c[t]) by {
            assert(c[t] == ds[t - 2]);
        }
        lemma_digit_run(c, 2, ds.len() as int);
        assert(digit_end(c, 2) == e);
    } else {
        assert(c[1] == '(');
    }
    assert(c.subrange(0, e) =~= name);
    assert(c.subrange(e + 1, k) =~= a);
}


proof fn lemma_skip_to(c: Seq<char>, i: int, o: int)
    requires
        0 <= i <= o <= c.len(),
        forall|t: int| 0 <= t < o ==> !is_lower(#[trigger] c[t]),
    ensures
        call_search(c, i) == call_search(c, o),
    decreases o - i,
{
    if i < o {
        assert(!is_lower(c[i]));
        lemma_skip_to(c, i + 1, o);
    }
}

/// Text without lowercase letters before a call does not hide it, and text
/// after its `)` does not change it: the call `name(arg)` (name a lowercase
/// letter, optionally with the separator and digits; argument without
/// parentheses) is found where it stands, with its whole name and argument.
pub proof fn call_found_after_prefix(p: Seq<char>, l: char, ds: Seq<char>, a: Seq<char>, rest: Seq<char>)
    requires
        forall|t: int| 0 <= t < p.len() ==> !is_lower(#[trigger] p[t]),
        is_lower(l),
        forall|k: int| 0 <= k < ds.len() ==> is_digit(#[trigger] ds[k]),
        !a.contains('('),
        !a.contains(')'),
    ensures
        ({
            let name = if ds.len() == 0 { seq![l] } else { seq![l, VARIABLE_SEPARATOR] + ds };
            call_search(p + name + seq!['('] + a + seq![')'] + rest, 0)
                == Some((p.len() as int, (p.len() + name.len() + a.len() + 2) as int, name, a))
        }),
{
    let name = if ds.len() == 0 { seq![l] } else { seq![l, VARIABLE_SEPARATOR] + ds };
    let c = p + name + seq!['('] + a + seq![')'] + rest;
    let o = p.len() as int;
    let e = o + name.len();
    let k = e + a.len() + 1;
    assert(c[e] == '(');
    assert(c[k] == ')');
    assert forall|t: int| 0 <= t < o implies !is_lower(#[trigger] c[t]) by {
        assert(c[t] == p[t]);
    }
    lemma_skip_to(c, 0, o);
    assert forall|t: int| e + 1 <= t < k implies #[trigger] c[t] != '(' && c[t] != ')' by {
        assert(c[t] == a[t - e - 1]);
        if c[t] == '(' {
            assert(a.contains('('));
        }
        if c[t] == ')' {
            assert(a.contains(')'));
        }
    }
    crate::chars::lemma_plain_close(c, e + 1, k);
    assert(c[o] == l);
    if ds.len() > 0 {
        assert(c[o + 1] == VARIABLE_SEPARATOR);
        assert forall|t: int| o + 2 <= t < o + 2 + ds.len() implies is_digit(#[trigger] c[t]) by {
            assert(c[t] == ds[t - o - 2]);
        }
        lemma_digit_run(c, o + 2, ds.len() as int);
        assert(digit_end(c, o + 2) == e);
    } else {
        assert(c[o + 1] == '(');
    }
    assert(c.subrange(o, e) =~= name);
    assert(c.subrange(e + 1, k) =~= a);
}


/// `name = value` without `let`, with or without spaces around `=`, is read
/// as that name and that value, for a name of an ASCII letter followed by
/// ASCII letters and digits and any value that does not start or end with
/// whitespace.
pub proof fn bare_assignment_read(n: Seq<char>, v: Seq<char>)
    requires
        n.len() > 0,
        is_ascii_letter(n[0]),
        forall|k: int| 1 <= k < n.len() ==> is_ascii_letter(#[trigger] n[k]) || is_digit(n[k]),
        v.len() > 0,
        !crate::text::whitespace(v[0]),
        !crate::text::whitespace(v[v.len() - 1]),
    ensures
        bare_assignment(n + seq!['='] + v) == Some((n, v)),
        bare_assignment(n + seq![' ', '=', ' '] + v) == Some((n, v)),
{
    assert forall|k: int| 0 <= k < n.len() implies !crate::text::whitespace(#[trigger] n[k]) && n[k] != '=' && alphanumeric(n[k]) by {
        if k > 0 {
            assert(is_ascii_letter(n[k]) || is_digit(n[k]));
        }
    }
    // without spaces
    let c = n + seq!['='] + v;
    crate::chars::lemma_trimmed_between(c, 0, c.len() as int);
    assert(c.subrange(0, c.len() as int) =~= c);
    lemma_first_from(c, 0, '=');
    assert(c[n.len() as int] == '=');
    assert forall|k: int| 0 <= k < n.len() implies c[k] != '=' by {
        assert(c[k] == n[k]);
    }
    assert(first_from(c, 0, '=') == n.len());
    assert(c.subrange(0, n.len() as int) =~= n);
    assert(c.subrange(n.len() + 1int, c.len() as int) =~= v);
    crate::chars::lemma_trimmed_between(n, 0, n.len() as int);
    assert(n.subrange(0, n.len() as int) =~= n);
    crate::chars::lemma_trimmed_between(v, 0, v.len() as int);
    assert(v.subrange(0, v.len() as int) =~= v);
    // with spaces
    let d = n + seq![' ', '=', ' '] + v;
    crate::chars::lemma_trimmed_between(d, 0, d.len() as int);
    assert(d.subrange(0, d.len() as int) =~= d);
    lemma_first_from(d, 0, '=');
    assert(d[n.len() + 1int] == '=');
    assert forall|k: int| 0 <= k <= n.len() implies d[k] != '=' by {
        if k < n.len() {
            assert(d[k] == n[k]);
        }
    }
    assert(first_from(d, 0, '=') == n.len() + 1);
    let l = d.subrange(0, n.len() + 1int);
    let r = d.subrange(n.len() + 2int, d.len() as int);
    assert(l =~= n.push(' '));
    assert(r =~= seq![' '] + v);
    crate::chars::lemma_trimmed_between(l, 0, n.len() as int);
    assert(l.subrange(0, n.len() as int) =~= n);
    crate::chars::lemma_trimmed_between(r, 1, r.len() as int);
    assert(r.subrange(1, r.len() as int) =~= v);
}


/// Calling a function whose body is `p o p` (`p` its one-letter parameter,
/// `o` an operator character) evaluates `(v) o (v)`, where `v` is the text
/// of the argument's value: every occurrence of the parameter is replaced,
/// and nothing else; a body that is the parameter alone gives `(v)`.
pub proof fn parameter_replaced_by_argument(name: Seq<char>, p: char, o: char, v: Seq<char>, c: CtxView)
    requires
        crate::text::alphabetic(p),
        !crate::text::alphabetic(o),
        o != '[' && o != '(' && o != VARIABLE_SEPARATOR,
    ensures
        substituted(FunctionView { name: name, param: seq![p], body: seq![p, o, p] }, v, c)
            == seq!['('] + v + seq![')', o, '('] + v + seq![')'],
        substituted(FunctionView { name: name, param: seq![p], body: seq![p] }, v, c) == seq!['('] + v + seq![')'],
{
    crate::parser::parameter_occurrences_bracketed(p, o, c.var_names(), c.func_names());
    let pat = seq!['[', p, ']'];
    let rep = seq!['('] + v + seq![')'];
    assert(seq!['['] + seq![p] + seq![']'] =~= pat);
    let s3 = seq!['[', p, ']', o, '[', p, ']'];
    assert(s3.subrange(4, 7) =~= pat);
    assert(replaced_from(s3, pat, rep, 7) == Seq::<char>::empty());
    assert(replaced_from(s3, pat, rep, 4) == rep + replaced_from(s3, pat, rep, 7));
    assert(s3.subrange(3, 6) != pat) by {
        assert(s3.subrange(3, 6)[0] == o);
    }
    assert(replaced_from(s3, pat, rep, 3) == seq![o] + replaced_from(s3, pat, rep, 4));
    assert(s3.subrange(0, 3) =~= pat);
    assert(replaced_from(s3, pat, rep, 0) == rep + replaced_from(s3, pat, rep, 3));
    assert(replaced_from(s3, pat, rep, 0) =~= seq!['('] + v + seq![')', o, '('] + v + seq![')']);
    let s1 = seq!['[', p, ']'];
    assert(s1.subrange(0, 3) =~= pat);
    assert(replaced_from(s1, pat, rep, 3) == Seq::<char>::empty());
    assert(replaced_from(s1, pat, rep, 0) =~= rep);
}


/// `remove name`, `delete name` and `rm name` all remove `name` (from the
/// variables and from the functions), and `precision k` sets the precision,
/// whatever spaces surround the line.
pub proof fn removal_and_precision_commands(c: CtxView, n: Seq<char>)
    requires
        n.len() > 0,
        !crate::text::whitespace(n[0]),
        !crate::text::whitespace(n[n.len() - 1]),
    ensures
        input_line(c, "remove "@ + n) == (removal(c, n).0, Seq::<FrameView>::empty(), value(removal(c, n).1)),
        input_line(c, "delete "@ + n) == (removal(c, n).0, Seq::<FrameView>::empty(), value(removal(c, n).1)),
        input_line(c, "rm "@ + n) == (removal(c, n).0, Seq::<FrameView>::empty(), value(removal(c, n).1)),
        input_line(c, "precision "@ + n)
            == (precision_setting(c, n).0, Seq::<FrameView>::empty(), value(precision_setting(c, n).1)),
{
    reveal_strlit("remove ");
    reveal_strlit("delete ");
    reveal_strlit("rm ");
    reveal_strlit("precision ");
    reveal_strlit("let ");
    crate::chars::lemma_trimmed_between(n, 0, n.len() as int);
    assert(n.subrange(0, n.len() as int) =~= n);
    let a = "remove "@ + n;
    let d = "delete "@ + n;
    let r = "rm "@ + n;
    let p = "precision "@ + n;
    crate::chars::lemma_trimmed_between(a, 0, a.len() as int);
    crate::chars::lemma_trimmed_between(d, 0, d.len() as int);
    crate::chars::lemma_trimmed_between(r, 0, r.len() as int);
    crate::chars::lemma_trimmed_between(p, 0, p.len() as int);
    assert(a.subrange(0, a.len() as int) =~= a);
    assert(d.subrange(0, d.len() as int) =~= d);
    assert(r.subrange(0, r.len() as int) =~= r);
    assert(p.subrange(0, p.len() as int) =~= p);
    // remove
    assert(a.subrange(0, 4) != "let "@) by {
        assert(a.subrange(0, 4)[0] == 'r');
    }
    assert(a.subrange(0, 7) =~= "remove "@);
    assert(a.subrange(7, a.len() as int) =~= n);
    // delete
    assert(d.subrange(0, 4) != "let "@) by {
        assert(d.subrange(0, 4)[0] == 'd');
    }
    assert(d.subrange(0, 7) != "remove "@) by {
        assert(d.subrange(0, 7)[0] == 'd');
    }
    assert(d.subrange(0, 7) =~= "delete "@);
    assert(d.subrange(7, d.len() as int) =~= n);
    // rm
    assert(!starts_with(r, "let "@)) by {
        if r.len() >= 4 {
            assert(r.subrange(0, 4)[0] == 'r' && r.subrange(0, 4)[1] == 'm');
        }
    }
    assert(!starts_with(r, "remove "@)) by {
        if r.len() >= 7 {
            assert(r.subrange(0, 7)[1] == 'm');
        }
    }
    assert(!starts_with(r, "delete "@)) by {
        if r.len() >= 7 {
            assert(r.subrange(0, 7)[0] == 'r');
        }
    }
    assert(r.subrange(0, 3) =~= "rm "@);
    assert(r.subrange(3, r.len() as int) =~= n);
    // precision
    assert(p.subrange(0, 4) != "let "@) by {
        assert(p.subrange(0, 4)[0] == 'p');
    }
    assert(p.subrange(0, 7) != "remove "@) by {
        assert(p.subrange(0, 7)[0] == 'p');
    }
    assert(p.subrange(0, 7) != "delete "@) by {
        assert(p.subrange(0, 7)[0] == 'p');
    }
    assert(p.subrange(0, 3) != "rm "@) by {
        assert(p.subrange(0, 3)[0] == 'p');
    }
    assert(p.subrange(0, 10) =~= "precision "@);
    assert(p.subrange(10, p.len() as int) =~= n);
}

} // verus!
