//! The state that evaluation reads and changes.
use vstd::prelude::*;
use indexmap::IndexMap;
use crate::definition_handler::function::{Function, FunctionView};
use crate::maps::{
    var_entries, func_entries, distinct_keys, key_set, entries_insert, var_map_new, func_map_new,
    var_insert, func_insert, has_key,
};
use crate::constant::{constant_vars, constant_funcs, constant_var, constant_func, lemma_constant_names_distinct};

verus! {

/// Definitions, line results and display settings of a session.
pub struct EvalContext {
    /// Number of expressions evaluated so far; the last result is `lin_<counter>`.
    pub counter: usize,
    /// Variables with the bits of their values, in definition order.
    pub defined_vars: IndexMap<String, u64>,
    /// User functions, in definition order.
    pub defined_funcs: IndexMap<String, Function>,
    /// Expressions entered with the bits of their results.
    pub history_entries: Vec<(String, u64)>,
    /// The definitions made by the last `let`, as written.
    pub recently_assigned: Vec<(String, String)>,
    pub sci_notation_enabled: bool,
    /// Significant figures in scientific notation.
    pub precision: usize,
    /// Number of digits (or leading zeros) from which results show in
    /// scientific notation.
    pub digit_threshold: usize,
}

/// What evaluation reads and changes in a context.
pub struct CtxView {
    pub vars: Seq<(Seq<char>, u64)>,
    pub funcs: Seq<(Seq<char>, FunctionView)>,
    pub counter: int,
    pub recently: Seq<(Seq<char>, Seq<char>)>,
    pub sci: bool,
    pub precision: int,
}

impl View for EvalContext {
    type V = CtxView;

    open spec fn view(&self) -> CtxView {
        CtxView {
            vars: var_entries(self.defined_vars),
            funcs: func_entries(self.defined_funcs),
            counter: self.counter as int,
            recently: self.recently_assigned@.map_values(|p: (String, String)| (p.0@, p.1@)),
            sci: self.sci_notation_enabled,
            precision: self.precision as int,
        }
    }
}

impl CtxView {
    pub open spec fn var_names(self) -> Set<Seq<char>> {
        key_set(self.vars)
    }

    pub open spec fn func_names(self) -> Set<Seq<char>> {
        key_set(self.funcs)
    }

    pub open spec fn wf(self) -> bool {
        distinct_keys(self.vars) && distinct_keys(self.funcs)
    }
}

impl EvalContext {
    /// The variables, in order.
    pub open spec fn vars(&self) -> Seq<(Seq<char>, u64)> {
        var_entries(self.defined_vars)
    }

    /// The functions, in order.
    pub open spec fn funcs(&self) -> Seq<(Seq<char>, FunctionView)> {
        func_entries(self.defined_funcs)
    }

    pub open spec fn var_names(&self) -> Set<Seq<char>> {
        key_set(self.vars())
    }

    pub open spec fn func_names(&self) -> Set<Seq<char>> {
        key_set(self.funcs())
    }

    /// Both maps have distinct keys.
    pub open spec fn wf(&self) -> bool {
        &&& distinct_keys(self.vars())
        &&& distinct_keys(self.funcs())
    }

    /// A fresh context: the predefined constants and functions, line counter
    /// at zero, scientific notation on, six significant figures, threshold six.
    pub fn new() -> (ctx: Self)
        ensures
            ctx.wf(),
            ctx.vars() == constant_vars(),
            ctx.funcs() == constant_funcs(),
            ctx.counter == 0,
            ctx.history_entries@.len() == 0,
            ctx.recently_assigned@.len() == 0,
            ctx.sci_notation_enabled,
            ctx.precision == 6,
            ctx.digit_threshold == 6,
    {
        let cv = constant_var();
        let cf = constant_func();
        let mut vars = var_map_new();
        let mut i: usize = 0;
        proof {
            lemma_constant_names_distinct();
        }
        while i < cv.len()
            invariant
                cv@.len() == constant_vars().len(),
                forall|k: int| 0 <= k < cv@.len() ==> (#[trigger] cv@[k]).0@ == constant_vars()[k].0 && cv@[k].1 == constant_vars()[k].1,
                i <= cv@.len(),
                var_entries(vars) == constant_vars().subrange(0, i as int),
                distinct_keys(var_entries(vars)),
                distinct_keys(constant_vars()),
            decreases cv@.len() - i,
        {
            let (name, bits) = cv[i];
            let ghost before = var_entries(vars);
            assert(!has_key(before, name@)) by {
                assert forall|j: int| 0 <= j < before.len() implies #[trigger] before[j].0 != name@ by {
                    assert(before[j] == constant_vars()[j]);
                    assert(constant_vars()[j].0 != constant_vars()[i as int].0);
                }
            }
            var_insert(&mut vars, name.to_owned(), bits);
            i = i + 1;
            assert(var_entries(vars) =~= constant_vars().subrange(0, i as int));
        }
        assert(constant_vars().subrange(0, 4) =~= constant_vars());
        let mut funcs = func_map_new();
        let mut j: usize = 0;
        while j < cf.len()
            invariant
                cf@.len() == constant_funcs().len(),
                forall|k: int| 0 <= k < cf@.len() ==> (#[trigger] cf@[k]).0@ == constant_funcs()[k].0 && cf@[k].1@ == constant_funcs()[k].1,
                j <= cf@.len(),
                func_entries(funcs) == constant_funcs().subrange(0, j as int),
                distinct_keys(func_entries(funcs)),
                distinct_keys(constant_funcs()),
            decreases cf@.len() - j,
        {
            let name = cf[j].0;
            let f = cf[j].1.duplicate();
            let ghost before = func_entries(funcs);
            assert(!has_key(before, name@)) by {
                assert forall|k: int| 0 <= k < before.len() implies #[trigger] before[k].0 != name@ by {
                    assert(before[k] == constant_funcs()[k]);
                    assert(constant_funcs()[k].0 != constant_funcs()[j as int].0);
                }
            }
            func_insert(&mut funcs, name.to_owned(), f);
            j = j + 1;
            assert(func_entries(funcs) =~= constant_funcs().subrange(0, j as int));
        }
        assert(constant_funcs().subrange(0, 2) =~= constant_funcs());
        Self {
            counter: 0,
            defined_vars: vars,
            defined_funcs: funcs,
            history_entries: Vec::new(),
            recently_assigned: Vec::new(),
            sci_notation_enabled: true,
            precision: 6,
            digit_threshold: 6,
        }
    }
}

} // verus!
