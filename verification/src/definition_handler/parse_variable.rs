//! Checking a variable definition `x = value` before its value is evaluated.
use vstd::prelude::*;
use crate::error::{EvalError, DefError, EvalErrorView, DefErrorView};
use crate::text::{chars_of, string_of};
use crate::chars::{trimmed, trim, extend, extend_str};
use crate::definition_handler::variable::{valid_variable_name, variable_name_error};
use crate::definition_handler::parse_function::{syntax, name_error};
use crate::eval_context::EvalContext;
use crate::parser::has_func;

verus! {

/// Why `name = value` cannot define a variable, if it cannot: an empty name,
/// a name taken by a function, an invalid name, or an empty value.
pub open spec fn variable_definition_error(name: Seq<char>, value: Seq<char>, funcs: Set<Seq<char>>) -> Option<EvalErrorView> {
    if trimmed(name).len() == 0 {
        Some(syntax("Variable name cannot be empty. Use: let x = 5"@))
    } else if funcs.contains(name) {
        Some(name_error("Variable name '"@ + name + "' conflicts with existing function. Choose a different name."@))
    } else if variable_name_error(name) is Some {
        Some(name_error("Invalid variable name '"@ + name + "'. "@ + variable_name_error(name)->0.message()))
    } else if trimmed(value).len() == 0 {
        Some(syntax("Variable '"@ + name + "' has no value. Use: let "@ + name + " = 5"@))
    } else {
        None
    }
}

/// The error when the value of variable `name` cannot be evaluated.
pub open spec fn value_error(name: Seq<char>, e: EvalErrorView) -> EvalErrorView {
    syntax("Cannot evaluate value for '"@ + name + "': "@ + e.message())
}

/// Checks `name = value` as a variable definition; the value itself is
/// evaluated afterwards.
pub fn parse_variable_definition(eval_ctx: &EvalContext, name: &str, value: &str) -> (r: Result<(), EvalError>)
    ensures
        match r {
            Ok(()) => variable_definition_error(name@, value@, eval_ctx.func_names()) is None,
            Err(e) => variable_definition_error(name@, value@, eval_ctx.func_names()) == Some(e@),
        },
{
    let n = chars_of(name);
    let tn = trim(&n);
    if tn.len() == 0 {
        return Err(EvalError::DefError(DefError::InvalidDefinitionSyntax(String::from_str("Variable name cannot be empty. Use: let x = 5"))));
    }
    if has_func(eval_ctx, &n) {
        let mut v = chars_of("Variable name '");
        extend(&mut v, &n);
        extend_str(&mut v, "' conflicts with existing function. Choose a different name.");
        return Err(EvalError::DefError(DefError::InvalidDefinitionName(string_of(&v))));
    }
    let owned = name.to_owned();
    match valid_variable_name(&owned) {
        Ok(()) => {},
        Err(e) => {
            let mut v = chars_of("Invalid variable name '");
            extend(&mut v, &n);
            extend_str(&mut v, "'. ");
            let es = e.to_string();
            extend_str(&mut v, es.as_str());
            return Err(EvalError::DefError(DefError::InvalidDefinitionName(string_of(&v))));
        },
    }
    let vc = chars_of(value);
    let tv = trim(&vc);
    if tv.len() == 0 {
        let mut v = chars_of("Variable '");
        extend(&mut v, &n);
        extend_str(&mut v, "' has no value. Use: let ");
        extend(&mut v, &n);
        extend_str(&mut v, " = 5");
        return Err(EvalError::DefError(DefError::InvalidDefinitionSyntax(string_of(&v))));
    }
    Ok(())
}

/// The error for a variable whose value could not be evaluated.
pub fn value_failed(name: &str, e: &EvalError) -> (r: EvalError)
    ensures
        r@ == value_error(name@, e@),
{
    let mut v = chars_of("Cannot evaluate value for '");
    extend_str(&mut v, name);
    extend_str(&mut v, "': ");
    let es = e.to_string();
    extend_str(&mut v, es.as_str());
    EvalError::DefError(DefError::InvalidDefinitionSyntax(string_of(&v)))
}

} // verus!
