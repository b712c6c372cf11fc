//! The constants and functions every context starts with.
use vstd::prelude::*;
use crate::definition_handler::function::{Function, FunctionView};

verus! {

/// Bits of the IEEE-754 double nearest to pi.
pub const PI_BITS: u64 = 0x400921fb54442d18;
/// Bits of the IEEE-754 double nearest to Euler's number.
pub const EULER_BITS: u64 = 0x4005bf0a8b145769;
/// Bits of the IEEE-754 double nearest to 8.8541878176e-13.
pub const EP_0_BITS: u64 = 0x3d6f2724b5492ca0;
/// Bits of the IEEE-754 double 299792458 (the speed of light).
pub const SPEED_OF_LIGHT_BITS: u64 = 0x41b1de784a000000;

/// The predefined variables, in order.
pub open spec fn constant_vars() -> Seq<(Seq<char>, u64)> {
    seq![("pi"@, PI_BITS), ("e"@, EULER_BITS), ("e_0"@, EP_0_BITS), ("c"@, SPEED_OF_LIGHT_BITS)]
}

/// The predefined functions, in order: `f(x) = x^2` and `r(x) = (xpi)/180`.
pub open spec fn constant_funcs() -> Seq<(Seq<char>, FunctionView)> {
    seq![
        ("f"@, FunctionView { name: "f"@, param: "x"@, body: "x^2"@ }),
        ("r"@, FunctionView { name: "r"@, param: "x"@, body: "(xpi)/180"@ }),
    ]
}

pub proof fn lemma_constant_names_distinct()
    ensures
        crate::maps::distinct_keys(constant_vars()),
        crate::maps::distinct_keys(constant_funcs()),
{
    reveal_strlit("pi");
    reveal_strlit("e");
    reveal_strlit("e_0");
    reveal_strlit("c");
    reveal_strlit("f");
    reveal_strlit("r");
    assert("pi"@.len() == 2 && "e"@.len() == 1 && "e_0"@.len() == 3 && "c"@.len() == 1);
    assert("e"@[0] == 'e' && "c"@[0] == 'c' && "f"@[0] == 'f' && "r"@[0] == 'r');
    let v = constant_vars();
    assert(v[0].0 != v[1].0 && v[0].0 != v[2].0 && v[0].0 != v[3].0);
    assert(v[1].0 != v[2].0 && v[1].0 != v[3].0 && v[2].0 != v[3].0);
    let f = constant_funcs();
    assert(f[0].0 != f[1].0);
}

/// The predefined variables as names and value bits.
pub fn constant_var() -> (v: Vec<(&'static str, u64)>)
    ensures
        v@.len() == constant_vars().len(),
        forall|i: int| 0 <= i < v@.len() ==> (#[trigger] v@[i]).0@ == constant_vars()[i].0 && v@[i].1 == constant_vars()[i].1,
{
    let mut v: Vec<(&'static str, u64)> = Vec::new();
    v.push(("pi", PI_BITS));
    v.push(("e", EULER_BITS));
    v.push(("e_0", EP_0_BITS));
    v.push(("c", SPEED_OF_LIGHT_BITS));
    v
}

/// The predefined functions with their names.
pub fn constant_func() -> (v: Vec<(&'static str, Function)>)
    ensures
        v@.len() == constant_funcs().len(),
        forall|i: int| 0 <= i < v@.len() ==> (#[trigger] v@[i]).0@ == constant_funcs()[i].0 && v@[i].1@ == constant_funcs()[i].1,
{
    let mut v: Vec<(&'static str, Function)> = Vec::new();
    v.push(("f", Function::define_new("f", "x", "x^2")));
    v.push(("r", Function::define_new("r", "x", "(xpi)/180")));
    v
}

} // verus!
