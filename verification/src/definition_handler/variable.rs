//! Which names a variable may have.
use vstd::prelude::*;
use crate::VARIABLE_SEPARATOR;
use crate::error::{DefError, DefErrorView};
use crate::text::{alphabetic, alphanumeric, is_alphabetic, is_alphanumeric, chars_of, string_of};
use crate::chars::extend_str;
use crate::implicit_multiplication::{without_spaces, remove_spaces_of};

verus! {

/// The message for a name that is not a letter followed by the separator
/// and digits.
pub open spec fn iteration_message(name: Seq<char>) -> Seq<char> {
    "Variable '"@ + name + "' must be a single letter or letter followed by '"@ + seq![VARIABLE_SEPARATOR]
        + "' and digits (e.g., x, x"@ + seq![VARIABLE_SEPARATOR] + "2, y"@ + seq![VARIABLE_SEPARATOR] + "10)"@
}

/// The message for a subscript that is not alphanumeric.
pub open spec fn subscript_message(name: Seq<char>) -> Seq<char> {
    "Variable '"@ + name + "' must be a single letter or letter followed by '"@ + seq![VARIABLE_SEPARATOR]
        + "' and alphanumeric characters (e.g., x, x"@ + seq![VARIABLE_SEPARATOR] + "2, y"@ + seq![VARIABLE_SEPARATOR] + "10)"@
}

/// What is wrong with a variable name, if anything. A name is a letter, or a
/// letter, the separator and at least one alphanumeric character
/// (whitespace aside).
pub open spec fn variable_name_error(name: Seq<char>) -> Option<DefErrorView> {
    if name.len() == 0 || !alphabetic(name[0]) {
        Some(DefErrorView::Name("Variable name must start with a letter. Got: '"@ + name + "'"@))
    } else if name.len() == 1 {
        None
    } else {
        let f = without_spaces(name);
        if f.len() < 2 {
            None
        } else if f[1] != VARIABLE_SEPARATOR || f.len() == 2 {
            Some(DefErrorView::Iteration(iteration_message(name)))
        } else if exists|k: int| 2 <= k < f.len() && !alphanumeric(#[trigger] f[k]) {
            Some(DefErrorView::Iteration(subscript_message(name)))
        } else {
            None
        }
    }
}

fn message_with_name(name: &Vec<char>, subscript: bool) -> (s: String)
    ensures
        s@ == (if subscript { subscript_message(name@) } else { iteration_message(name@) }),
{
    let mut v = chars_of("Variable '");
    crate::chars::extend(&mut v, name);
    extend_str(&mut v, "' must be a single letter or letter followed by '");
    v.push(VARIABLE_SEPARATOR);
    if subscript {
        extend_str(&mut v, "' and alphanumeric characters (e.g., x, x");
    } else {
        extend_str(&mut v, "' and digits (e.g., x, x");
    }
    v.push(VARIABLE_SEPARATOR);
    extend_str(&mut v, "2, y");
    v.push(VARIABLE_SEPARATOR);
    extend_str(&mut v, "10)");
    assert(v@ =~= (if subscript { subscript_message(name@) } else { iteration_message(name@) }));
    string_of(&v)
}

/// Checks that a name is a letter, or a letter followed by the separator
/// and alphanumeric characters.
pub fn valid_variable_name(var_name: &String) -> (r: Result<(), DefError>)
    ensures
        match r {
            Ok(()) => variable_name_error(var_name@) is None,
            Err(e) => variable_name_error(var_name@) == Some(e@),
        },
{
    let name = chars_of(var_name.as_str());
    if name.len() == 0 || !is_alphabetic(name[0]) {
        let mut v = chars_of("Variable name must start with a letter. Got: '");
        crate::chars::extend(&mut v, &name);
        extend_str(&mut v, "'");
        return Err(DefError::InvalidDefinitionName(string_of(&v)));
    }
    if name.len() == 1 {
        return Ok(());
    }
    let f = remove_spaces_of(&name);
    if f.len() < 2 {
        return Ok(());
    }
    if f[1] != VARIABLE_SEPARATOR || f.len() == 2 {
        return Err(DefError::InvalidDefinitionIteration(message_with_name(&name, false)));
    }
    let mut k: usize = 2;
    while k < f.len()
        invariant
            2 <= k <= f@.len(),
            f@ == without_spaces(name@),
            name@ == var_name@,
            name@.len() > 1,
            alphabetic(name@[0]),
            f@[1] == VARIABLE_SEPARATOR,
            forall|j: int| 2 <= j < k ==> alphanumeric(#[trigger] f@[j]),
        decreases f@.len() - k,
    {
        if !is_alphanumeric(f[k]) {
            assert(!alphanumeric(f@[k as int]));
            assert(exists|j: int| 2 <= j < f@.len() && !alphanumeric(#[trigger] f@[j]));
            assert(variable_name_error(var_name@) == Some(DefErrorView::Iteration(subscript_message(name@))));
            return Err(DefError::InvalidDefinitionIteration(message_with_name(&name, true)));
        }
        k = k + 1;
    }
    Ok(())
}

} // verus!

verus! {

/// Every name of one alphabetic character is a valid variable name, upper
/// case letters included.
pub proof fn single_letter_names_are_valid(c: char)
    requires
        alphabetic(c),
    ensures
        variable_name_error(seq![c]) is None,
{
}

/// An ASCII letter followed by the separator and digits is a valid variable
/// name; a name that does not start with a letter is not.
pub proof fn subscripted_names_are_valid(c: char, ds: Seq<char>, other: Seq<char>)
    requires
        crate::text::is_ascii_letter(c),
        ds.len() > 0,
        forall|k: int| 0 <= k < ds.len() ==> crate::text::is_digit(#[trigger] ds[k]),
        other.len() == 0 || !alphabetic(other[0]),
    ensures
        variable_name_error(seq![c, VARIABLE_SEPARATOR] + ds) is None,
        variable_name_error(other) is Some,
{
    let n = seq![c, VARIABLE_SEPARATOR] + ds;
    assert(without_spaces(n) == n) by {
        lemma_no_spaces_kept(n);
    }
    assert forall|k: int| 2 <= k < n.len() implies alphanumeric(#[trigger] n[k]) by {
        assert(n[k] == ds[k - 2]);
    }
}

/// A letter followed by one more character is refused, the separator
/// included (it must be followed by a subscript); a name that does not start
/// with a letter is refused with the message that says so.
pub proof fn malformed_names_are_refused(c: char, x: char, other: Seq<char>)
    requires
        crate::text::is_ascii_letter(c),
        !crate::text::whitespace(x),
        other.len() == 0 || !alphabetic(other[0]),
    ensures
        variable_name_error(seq![c, x]) == Some(DefErrorView::Iteration(iteration_message(seq![c, x]))),
        variable_name_error(other)
            == Some(DefErrorView::Name("Variable name must start with a letter. Got: '"@ + other + "'"@)),
{
    let n = seq![c, x];
    assert(without_spaces(n) == n) by {
        lemma_no_spaces_kept(n);
    }
}

proof fn lemma_no_spaces_kept(s: Seq<char>)
    requires
        forall|k: int| 0 <= k < s.len() ==> !crate::text::whitespace(#[trigger] s[k]),
    ensures
        without_spaces(s) == s,
    decreases s.len(),
{
    if s.len() > 0 {
        assert(!crate::text::whitespace(s[s.len() - 1]));
        lemma_no_spaces_kept(s.drop_last());
        assert(s.drop_last() + seq![s.last()] =~= s);
    }
}

} // verus!
