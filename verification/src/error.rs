//! Errors of evaluation and of definitions, with their messages.
use vstd::prelude::*;
use crate::chars::extend_str;
use crate::text::{chars_of, string_of};

verus! {

#[derive(Debug)]
pub enum EvalError {
    EmptyInput,
    DefError(DefError),
    ParseError(String),
}

#[derive(Debug)]
pub enum DefError {
    InvalidDefinitionSyntax(String),
    InvalidDefinitionName(String),
    InvalidDefinitionIteration(String),
    MismatchedBatch(String),
}

/// A definition error as text.
pub enum DefErrorView {
    Syntax(Seq<char>),
    Name(Seq<char>),
    Iteration(Seq<char>),
    Mismatched(Seq<char>),
}

/// An evaluation error as text.
pub enum EvalErrorView {
    EmptyInput,
    Def(DefErrorView),
    Parse(Seq<char>),
}

impl View for DefError {
    type V = DefErrorView;

    open spec fn view(&self) -> DefErrorView {
        match self {
            DefError::InvalidDefinitionSyntax(m) => DefErrorView::Syntax(m@),
            DefError::InvalidDefinitionName(m) => DefErrorView::Name(m@),
            DefError::InvalidDefinitionIteration(m) => DefErrorView::Iteration(m@),
            DefError::MismatchedBatch(m) => DefErrorView::Mismatched(m@),
        }
    }
}

impl View for EvalError {
    type V = EvalErrorView;

    open spec fn view(&self) -> EvalErrorView {
        match self {
            EvalError::EmptyInput => EvalErrorView::EmptyInput,
            EvalError::DefError(e) => EvalErrorView::Def(e@),
            EvalError::ParseError(m) => EvalErrorView::Parse(m@),
        }
    }
}

impl DefErrorView {
    /// The message shown for the error.
    pub open spec fn message(self) -> Seq<char> {
        match self {
            DefErrorView::Syntax(m) => "Invalid let syntax: "@ + m,
            DefErrorView::Name(m) => "Invalid variable name: "@ + m,
            DefErrorView::Iteration(m) => "Invalid variable iteration: "@ + m,
            DefErrorView::Mismatched(m) => m,
        }
    }
}

impl EvalErrorView {
    /// The message shown for the error.
    pub open spec fn message(self) -> Seq<char> {
        match self {
            EvalErrorView::EmptyInput => "Empty input"@,
            EvalErrorView::Def(e) => e.message(),
            EvalErrorView::Parse(m) => "Parse error: "@ + m,
        }
    }
}

impl DefError {
    /// The message shown for the error.
    pub fn to_string(&self) -> (s: String)
        ensures
            s@ == self@.message(),
    {
        let mut v: Vec<char> = Vec::new();
        match self {
            DefError::InvalidDefinitionSyntax(m) => {
                extend_str(&mut v, "Invalid let syntax: ");
                extend_str(&mut v, m.as_str());
            },
            DefError::InvalidDefinitionName(m) => {
                extend_str(&mut v, "Invalid variable name: ");
                extend_str(&mut v, m.as_str());
            },
            DefError::InvalidDefinitionIteration(m) => {
                extend_str(&mut v, "Invalid variable iteration: ");
                extend_str(&mut v, m.as_str());
            },
            DefError::MismatchedBatch(m) => {
                extend_str(&mut v, m.as_str());
            },
        }
        assert(v@ =~= self@.message());
        string_of(&v)
    }
}

impl EvalError {
    /// The message shown for the error.
    pub fn to_string(&self) -> (s: String)
        ensures
            s@ == self@.message(),
    {
        match self {
            EvalError::EmptyInput => String::from_str("Empty input"),
            EvalError::DefError(e) => e.to_string(),
            EvalError::ParseError(m) => {
                let mut v = chars_of("Parse error: ");
                extend_str(&mut v, m.as_str());
                string_of(&v)
            },
        }
    }
}

impl From<DefError> for EvalError {
    fn from(e: DefError) -> (r: Self) {
        EvalError::DefError(e)
    }
}

impl vstd::std_specs::convert::FromSpecImpl<DefError> for EvalError {
    open spec fn obeys_from_spec() -> bool {
        true
    }

    open spec fn from_spec(e: DefError) -> Self {
        EvalError::DefError(e)
    }
}

} // verus!
