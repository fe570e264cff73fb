use vstd::prelude::*;

use crate::environment::Env;
use crate::evaluator::{eval_all, matches_out, EvalError};
use crate::expressions::Exp;
use crate::parser::{parse, sp_parse_all};
use crate::semantics::s_eval_all;

verus! {

/// Parses a whole source text and evaluates every top-level form, in
/// order, against the given scope; the last value (or first failure)
/// stands, exactly as `s_eval_all` over `sp_parse_all` says.
pub fn eval_code(code: &String, env: &mut Env, fuel: u64) -> (r: Result<Exp, EvalError>)
    ensures
        final(env).chain() =~= old(env).chain().update(0, final(env).frame()),
        matches_out(
            s_eval_all(sp_parse_all(code@, 0), old(env).chain(), fuel as nat),
            r,
            final(env).frame(),
        ),
{
    let exps = parse(code.as_str());
    eval_all(&exps, env, fuel)
}

} // verus!
