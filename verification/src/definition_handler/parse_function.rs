//! Reading a function definition `f(x) = body`.
use vstd::prelude::*;
use crate::VARIABLE_SEPARATOR;
use crate::error::{EvalError, DefError, EvalErrorView, DefErrorView};
use crate::text::{is_digit, digit, is_lower, lower, chars_of, string_of};
use crate::chars::{
    first_from, last_of, trimmed, lemma_first_from, lemma_last_of, trim, find_from, rfind, slice,
    extend, extend_str, has_char,
};
use crate::definition_handler::function::{Function, FunctionView};
use crate::definition_handler::variable::{valid_variable_name, variable_name_error};
use crate::eval_context::EvalContext;
use crate::parser::has_var;

verus! {

/// A lowercase letter, optionally followed by the separator and at least one
/// digit.
pub open spec fn valid_identifier(s: Seq<char>) -> bool {
    &&& s.len() > 0
    &&& is_lower(s[0])
    &&& (s.len() == 1 || (s[1] == VARIABLE_SEPARATOR && s.len() > 2 && forall|k: int|
        2 <= k < s.len() ==> is_digit(#[trigger] s[k])))
}

pub open spec fn syntax(m: Seq<char>) -> EvalErrorView {
    EvalErrorView::Def(DefErrorView::Syntax(m))
}

pub open spec fn name_error(m: Seq<char>) -> EvalErrorView {
    EvalErrorView::Def(DefErrorView::Name(m))
}

/// The message for a misplaced pair of parentheses.
pub open spec fn invalid_syntax_message(t: Seq<char>) -> Seq<char> {
    "Invalid function syntax '"@ + t + "'. Use: let f(x) = expression"@
}

/// The message for a function or parameter name of the wrong form.
pub open spec fn invalid_format_message(t: Seq<char>, what: Seq<char>) -> Seq<char> {
    "Invalid function format '"@ + t + "'. "@ + what + " must be a single letter optionally followed by '"@
        + seq![VARIABLE_SEPARATOR] + "' and digits. Use: let f(x) = expression or let f"@ + seq![VARIABLE_SEPARATOR]
        + "2(x"@ + seq![VARIABLE_SEPARATOR] + "1) = expression"@
}

/// The name and parameter of `f(x)` (surrounding whitespace aside), or the
/// error for a text of another form.
pub open spec fn function_syntax(name: Seq<char>) -> Result<(Seq<char>, Seq<char>), EvalErrorView> {
    let t = trimmed(name);
    let open = first_from(t, 0, '(');
    let close = last_of(t, t.len() as int, ')');
    if open >= t.len() || close < 0 || close <= open || close != t.len() - 1 {
        Err(syntax(invalid_syntax_message(t)))
    } else {
        let f = t.subrange(0, open);
        let v = t.subrange(open + 1, close);
        if !valid_identifier(f) {
            Err(syntax(invalid_format_message(t, "Function name"@)))
        } else if !valid_identifier(v) {
            Err(syntax(invalid_format_message(t, "Parameter"@)))
        } else {
            Ok((f, v))
        }
    }
}

/// `()` occurs in `s`.
pub open spec fn has_empty_parens(s: Seq<char>) -> bool {
    exists|i: int| 0 <= i < s.len() - 1 && #[trigger] s[i] == '(' && s[i + 1] == ')'
}

/// The function that `name = value` defines, or why it is refused.
pub open spec fn function_definition(name: Seq<char>, value: Seq<char>, vars: Set<Seq<char>>) -> Result<FunctionView, EvalErrorView> {
    if !name.contains('(') {
        Err(syntax("Missing '(' in function definition '"@ + name + "'. Use: let f(x) = expression"@))
    } else if !name.contains(')') {
        Err(syntax("Missing ')' in function definition '"@ + name + "'. Use: let f(x) = expression"@))
    } else if has_empty_parens(name) {
        Err(syntax("Function '"@ + name + "' has no parameter. Use: let f(x) = expression"@))
    } else if name.contains(',') {
        Err(syntax("Function '"@ + name + "' has multiple parameters. Only single-parameter functions are supported. Use: let f(x) = expression"@))
    } else {
        match function_syntax(name) {
            Err(e) => Err(e),
            Ok((f, v)) => match variable_name_error(f) {
                Some(e) => Err(name_error("Invalid function name '"@ + f + "'. "@ + e.message())),
                None => match variable_name_error(v) {
                    Some(e) => Err(name_error("Invalid parameter name '"@ + v + "'. "@ + e.message())),
                    None => if vars.contains(f) {
                        Err(name_error("Function name '"@ + f + "' conflicts with existing variable. Choose a different name."@))
                    } else {
                        Ok(FunctionView { name: f, param: v, body: value })
                    },
                },
            },
        }
    }
}

/// Whether `s` is a lowercase letter, optionally followed by the separator
/// and digits.
pub fn is_valid_identifier(s: &str) -> (b: bool)
    ensures
        b == valid_identifier(s@),
{
    let c = chars_of(s);
    if c.len() == 0 {
        return false;
    }
    if !lower(c[0]) {
        return false;
    }
    if c.len() == 1 {
        return true;
    }
    if c[1] != VARIABLE_SEPARATOR {
        return false;
    }
    if c.len() == 2 {
        return false;
    }
    let mut k: usize = 2;
    while k < c.len()
        invariant
            2 <= k <= c@.len(),
            c@ == s@,
            forall|j: int| 2 <= j < k ==> is_digit(#[trigger] c@[j]),
        decreases c@.len() - k,
    {
        if !digit(c[k]) {
            return false;
        }
        k = k + 1;
    }
    true
}

fn format_message(t: &Vec<char>, what: &str) -> (s: String)
    ensures
        s@ == invalid_format_message(t@, what@),
{
    let mut v = chars_of("Invalid function format '");
    extend(&mut v, t);
    extend_str(&mut v, "'. ");
    extend_str(&mut v, what);
    extend_str(&mut v, " must be a single letter optionally followed by '");
    v.push(VARIABLE_SEPARATOR);
    extend_str(&mut v, "' and digits. Use: let f(x) = expression or let f");
    v.push(VARIABLE_SEPARATOR);
    extend_str(&mut v, "2(x");
    v.push(VARIABLE_SEPARATOR);
    extend_str(&mut v, "1) = expression");
    assert(v@ =~= invalid_format_message(t@, what@));
    string_of(&v)
}

fn syntax_err(v: &Vec<char>) -> (e: EvalError)
    ensures
        e@ == syntax(v@),
{
    EvalError::DefError(DefError::InvalidDefinitionSyntax(string_of(v)))
}

/// Splits `f(x)` into the name `f` and the parameter `x`.
pub fn parse_function_syntax(name: &str) -> (r: Result<(String, String), EvalError>)
    ensures
        match r {
            Ok((f, v)) => function_syntax(name@) == Ok::<(Seq<char>, Seq<char>), EvalErrorView>((f@, v@)),
            Err(e) => function_syntax(name@) == Err::<(Seq<char>, Seq<char>), EvalErrorView>(e@),
        },
{
    let raw = chars_of(name);
    let t = trim(&raw);
    let open = find_from(&t, 0, '(');
    proof {
        lemma_first_from(t@, 0, '(');
        lemma_last_of(t@, t@.len() as int, ')');
    }
    let close = rfind(&t, ')');
    let bad_syntax = || -> (e: EvalError)
        ensures
            e@ == syntax(invalid_syntax_message(t@)),
    {
        let mut v = chars_of("Invalid function syntax '");
        extend(&mut v, &t);
        extend_str(&mut v, "'. Use: let f(x) = expression");
        assert(v@ =~= invalid_syntax_message(t@));
        syntax_err(&v)
    };
    if open >= t.len() {
        return Err(bad_syntax());
    }
    let close = match close {
        Some(k) => k,
        None => {
            return Err(bad_syntax());
        },
    };
    if close <= open || close != t.len() - 1 {
        return Err(bad_syntax());
    }
    let f = slice(&t, 0, open);
    let v = slice(&t, open + 1, close);
    let fs = string_of(&f);
    let vs = string_of(&v);
    if !is_valid_identifier(fs.as_str()) {
        return Err(EvalError::DefError(DefError::InvalidDefinitionSyntax(format_message(&t, "Function name"))));
    }
    if !is_valid_identifier(vs.as_str()) {
        return Err(EvalError::DefError(DefError::InvalidDefinitionSyntax(format_message(&t, "Parameter"))));
    }
    Ok((fs, vs))
}

fn has_pair(c: &Vec<char>) -> (b: bool)
    ensures
        b == has_empty_parens(c@),
{
    let mut i: usize = 0;
    while c.len() > 0 && i < c.len() - 1
        invariant
            forall|j: int| 0 <= j < i && j < c@.len() - 1 ==> !(#[trigger] c@[j] == '(' && c@[j + 1] == ')'),
        decreases c@.len() - i,
    {
        if c[i] == '(' && c[i + 1] == ')' {
            return true;
        }
        i = i + 1;
    }
    false
}

fn quoted_message(prefix: &str, w: &Vec<char>, suffix: &str) -> (s: String)
    ensures
        s@ == prefix@ + w@ + suffix@,
{
    let mut v = chars_of(prefix);
    extend(&mut v, w);
    extend_str(&mut v, suffix);
    string_of(&v)
}

/// Reads `name = value` as a function definition; refuses a malformed head,
/// invalid names, and a name already taken by a variable.
pub fn parse_function_definition(eval_ctx: &EvalContext, name: &str, value: &str) -> (r: Result<Function, EvalError>)
    ensures
        match r {
            Ok(f) => function_definition(name@, value@, eval_ctx.var_names()) == Ok::<FunctionView, EvalErrorView>(f@),
            Err(e) => function_definition(name@, value@, eval_ctx.var_names()) == Err::<FunctionView, EvalErrorView>(e@),
        },
{
    let c = chars_of(name);
    if !has_char(&c, '(') {
        return Err(EvalError::DefError(DefError::InvalidDefinitionSyntax(quoted_message("Missing '(' in function definition '", &c, "'. Use: let f(x) = expression"))));
    }
    if !has_char(&c, ')') {
        return Err(EvalError::DefError(DefError::InvalidDefinitionSyntax(quoted_message("Missing ')' in function definition '", &c, "'. Use: let f(x) = expression"))));
    }
    if has_pair(&c) {
        return Err(EvalError::DefError(DefError::InvalidDefinitionSyntax(quoted_message("Function '", &c, "' has no parameter. Use: let f(x) = expression"))));
    }
    if has_char(&c, ',') {
        return Err(EvalError::DefError(DefError::InvalidDefinitionSyntax(quoted_message("Function '", &c, "' has multiple parameters. Only single-parameter functions are supported. Use: let f(x) = expression"))));
    }
    let (func_name, var_name) = match parse_function_syntax(name) {
        Ok(p) => p,
        Err(e) => {
            return Err(e);
        },
    };
    match valid_variable_name(&func_name) {
        Ok(()) => {},
        Err(e) => {
            let fc = chars_of(func_name.as_str());
            let mut v = chars_of("Invalid function name '");
            extend(&mut v, &fc);
            extend_str(&mut v, "'. ");
            let es = e.to_string();
            extend_str(&mut v, es.as_str());
            return Err(EvalError::DefError(DefError::InvalidDefinitionName(string_of(&v))));
        },
    }
    match valid_variable_name(&var_name) {
        Ok(()) => {},
        Err(e) => {
            let vc = chars_of(var_name.as_str());
            let mut v = chars_of("Invalid parameter name '");
            extend(&mut v, &vc);
            extend_str(&mut v, "'. ");
            let es = e.to_string();
            extend_str(&mut v, es.as_str());
            return Err(EvalError::DefError(DefError::InvalidDefinitionName(string_of(&v))));
        },
    }
    let fc = chars_of(func_name.as_str());
    if has_var(eval_ctx, &fc) {
        return Err(EvalError::DefError(DefError::InvalidDefinitionName(quoted_message("Function name '", &fc, "' conflicts with existing variable. Choose a different name."))));
    }
    Ok(Function::new(func_name, var_name, value.to_owned()))
}

} // verus!

verus! {

proof fn lemma_identifier_name_valid(f: Seq<char>)
    requires
        valid_identifier(f),
    ensures
        variable_name_error(f) is None,
        forall|k: int| 0 <= k < f.len() ==> (#[trigger] f[k] != '(' && f[k] != ')' && f[k] != ','
            && !crate::text::whitespace(f[k])),
{
    if f.len() == 1 {
        crate::definition_handler::variable::single_letter_names_are_valid(f[0]);
        assert(f =~= seq![f[0]]);
    } else {
        let ds = f.subrange(2, f.len() as int);
        assert forall|k: int| 0 <= k < ds.len() implies is_digit(#[trigger] ds[k]) by {
            assert(ds[k] == f[k + 2]);
        }
        assert(f =~= seq![f[0], VARIABLE_SEPARATOR] + ds);
        crate::definition_handler::variable::subscripted_names_are_valid(f[0], ds, seq![]);
    }
    assert forall|k: int| 0 <= k < f.len() implies (#[trigger] f[k] != '(' && f[k] != ')' && f[k] != ','
        && !crate::text::whitespace(f[k])) by {
        if k >= 2 {
            assert(is_digit(f[k]));
        }
    }
}

/// `f(x) = body` with a function name and a parameter of the accepted form
/// (a lowercase letter, optionally with the separator and digits) defines
/// the function `f` of `x` with that body, unless `f` already names a
/// variable.
pub proof fn function_definition_read(f: Seq<char>, x: Seq<char>, body: Seq<char>, vars: Set<Seq<char>>)
    requires
        valid_identifier(f),
        valid_identifier(x),
        !vars.contains(f),
    ensures
        function_definition(f + seq!['('] + x + seq![')'], body, vars)
            == Ok::<FunctionView, EvalErrorView>(FunctionView { name: f, param: x, body: body }),
{
    let name = f + seq!['('] + x + seq![')'];
    let o = f.len() as int;
    let cl = name.len() - 1;
    lemma_identifier_name_valid(f);
    lemma_identifier_name_valid(x);
    assert(name[o] == '(');
    assert(name[cl] == ')');
    assert(name.contains('('));
    assert(name.contains(')'));
    assert forall|i: int| 0 <= i < name.len() implies (#[trigger] name[i] == '(' ==> i == o) && (name[i] == ')' ==> i == cl)
        && name[i] != ',' by {
        if i < o {
            assert(name[i] == f[i]);
        } else if o < i < cl {
            assert(name[i] == x[i - o - 1]);
        }
    }
    assert(name[o + 1] == x[0]);
    assert(!has_empty_parens(name));
    assert(!name.contains(','));
    assert(!crate::text::whitespace(name[0])) by {
        assert(name[0] == f[0]);
    }
    crate::chars::lemma_trimmed_between(name, 0, name.len() as int);
    assert(name.subrange(0, name.len() as int) =~= name);
    let t = trimmed(name);
    assert(t == name);
    lemma_first_from(t, 0, '(');
    assert(first_from(t, 0, '(') == o);
    assert(last_of(t, t.len() as int, ')') == cl);
    assert(t.subrange(0, o) =~= f);
    assert(t.subrange(o + 1, cl) =~= x);
    assert(function_syntax(name) == Ok::<(Seq<char>, Seq<char>), EvalErrorView>((f, x)));
}

} // verus!
