//! A user-defined function of one parameter.
use vstd::prelude::*;
use crate::eval_context::EvalContext;
use crate::eval::{Evaluation, Step, Frame, frames_view, frames_wf, start_call, finish_step, push_frame};
use crate::text::chars_of;

verus! {

/// A function `func_name(var_name) = expr`, kept as text.
#[derive(Clone, Debug)]
pub struct Function {
    pub func_name: String,
    pub var_name: String,
    pub expr: String,
}

/// The text of a function: its name, its parameter and its body.
pub struct FunctionView {
    pub name: Seq<char>,
    pub param: Seq<char>,
    pub body: Seq<char>,
}

impl View for Function {
    type V = FunctionView;

    open spec fn view(&self) -> FunctionView {
        FunctionView { name: self.func_name@, param: self.var_name@, body: self.expr@ }
    }
}

impl Function {
    pub fn new(func_name: String, var_name: String, expr: String) -> (f: Self)
        ensures
            f.func_name == func_name,
            f.var_name == var_name,
            f.expr == expr,
    {
        Self { func_name, var_name, expr }
    }

    /// A function given by literal text, such as the built-in ones.
    pub fn define_new(func_name: &str, var_name: &str, expr: &str) -> (f: Self)
        ensures
            f.func_name@ == func_name@,
            f.var_name@ == var_name@,
            f.expr@ == expr@,
    {
        Self {
            func_name: func_name.to_owned(),
            var_name: var_name.to_owned(),
            expr: expr.to_owned(),
        }
    }

    /// Starts evaluating this function at the argument `value`: the argument
    /// is evaluated, its value put in place of each `[param]` of the body,
    /// and the body evaluated. Continue with `Evaluation::resume`.
    pub fn evaluate_func(&self, ctx: &mut EvalContext, value: &str) -> (r: (Evaluation, Step))
        requires
            old(ctx).wf(),
        ensures
            (r.0@, final(ctx)@, r.1@) == start_call(old(ctx)@, self@, value@),
            *final(ctx) == *old(ctx),
            r.0.wf(),
    {
        let mut frames: Vec<Frame> = Vec::new();
        assert(frames_wf(frames_view(frames@)));
        push_frame(&mut frames, Frame::FuncArg(self.duplicate()));
        assert(frames_view(frames@) =~= seq![crate::eval::FrameView::FuncArg(self@)]);
        finish_step(frames, crate::eval::Outcome::Start(chars_of(value)))
    }

    /// A copy with the same text.
    pub fn duplicate(&self) -> (f: Self)
        ensures
            f == *self,
    {
        Self {
            func_name: self.func_name.clone(),
            var_name: self.var_name.clone(),
            expr: self.expr.clone(),
        }
    }
}

} // verus!
