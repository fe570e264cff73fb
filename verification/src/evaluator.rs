use vstd::prelude::*;

use crate::builtins::BuiltIn;
use crate::environment::{lemma_chain_shape, Env, FrameV};
use crate::expressions::{
    exp_view, exps_view, lemma_exps_view, Exception, ExceptionType, Exp, ExpV,
};
use crate::semantics::{
    height, hsum, lemma_hsum_elem, lemma_hsum_split, push_bt, s_eval, s_eval_all, Fatal, SOut,
};
use crate::to_string::to_string;

verus! {

/// How an evaluation ends when it does not produce a value: with a
/// recoverable exception that language code can observe, or with a
/// fatal condition that ends the whole program.
#[derive(Debug)]
pub enum EvalError {
    Raise(Exception),
    Fatal(Fatal),
}

/// The executable outcome `r`, ending with frame `fr`, is what the
/// mathematical outcome `out` says.
pub open spec fn matches_out(out: SOut, r: Result<Exp, EvalError>, fr: FrameV) -> bool {
    match r {
        Ok(e) => out == SOut::Val(e@, fr),
        Err(EvalError::Raise(x)) => out == SOut::Exn(x@, fr),
        Err(EvalError::Fatal(f)) => out == SOut::Die(f),
    }
}

/// Compares a symbol's text with a keyword.
pub(crate) fn string_eq(a: &String, b: &str) -> (r: bool)
    ensures
        r == (a@ == b@),
{
    let bs = b.to_owned();
    *a == bs
}

/// Deep-copies the elements of `v` from index `start` on.
pub(crate) fn clone_exps_from(v: &Vec<Exp>, start: usize) -> (r: Vec<Exp>)
    requires
        start <= v@.len(),
    ensures
        exps_view(r@) == exps_view(v@).subrange(start as int, exps_view(v@).len() as int),
{
    proof {
        broadcast use lemma_exps_view;

    }
    let mut r: Vec<Exp> = Vec::new();
    let mut k: usize = start;
    while k < v.len()
        invariant
            start <= k <= v@.len(),
            r@.len() == k - start,
            forall|i: int|
                0 <= i < r@.len() ==> #[trigger] exp_view(r@[i]) == exp_view(v@[start + i]),
        decreases v@.len() - k,
    {
        r.push(v[k].duplicate());
        k = k + 1;
    }
    proof {
        broadcast use lemma_exps_view;

        assert(exps_view(r@) =~= exps_view(v@).subrange(start as int, exps_view(v@).len() as int));
    }
    r
}

/// Appends the unwinding expression to a raised exception's trail;
/// fatal conditions pass through unchanged.
fn raise_with(e: EvalError, exp: &Exp) -> (r: EvalError)
    ensures
        match e {
            EvalError::Raise(x) => match r {
                EvalError::Raise(x2) => x2@ == push_bt(x@, exp@),
                _ => false,
            },
            EvalError::Fatal(f) => r == EvalError::Fatal(f),
        },
{
    match e {
        EvalError::Raise(x) => {
            let ghost xv = x@;
            let mut x = x;
            let ghost bt0 = x.backtrace@;
            let d = exp.duplicate();
            x.backtrace.push(d);
            proof {
                broadcast use lemma_exps_view;

                assert(xv.backtrace == exps_view(bt0));
                assert forall|i: int| 0 <= i < bt0.len() implies #[trigger] exps_view(
                    x.backtrace@,
                )[i] == xv.backtrace[i] by {
                    assert(x.backtrace@[i] == bt0[i]);
                }
                assert(exps_view(x.backtrace@)[bt0.len() as int] == exp@);
                assert(x@.backtrace =~= xv.backtrace.push(exp@));
                assert(x@.etype == xv.etype);
                assert(x@.message == xv.message);
                assert(x@ =~= push_bt(xv, exp@));
            }
            EvalError::Raise(x)
        },
        EvalError::Fatal(f) => EvalError::Fatal(f),
    }
}

/// Evaluates one expression in a scope, with a recursion budget.
///
/// Literals, builtins, functions and exception values evaluate to
/// themselves (an empty list too); a symbol names a builtin or is
/// looked up; a non-empty list is a call.  The result, the raised
/// exception with its trail, or the fatal condition is exactly what
/// `s_eval` says of the expression's model, and only this scope's own
/// frame changes.
pub fn eval(exp: &Exp, env: &mut Env, fuel: u64) -> (r: Result<Exp, EvalError>)
    ensures
        final(env).chain() =~= old(env).chain().update(0, final(env).frame()),
        matches_out(s_eval(exp@, old(env).chain(), fuel as nat), r, final(env).frame()),
    decreases fuel, height(exp@), 0int,
{
    proof {
        broadcast use lemma_exps_view, lemma_chain_shape;

    }
    let ghost c0 = env.chain();
    match exp {
        Exp::Atom(a) => {
            if string_eq(a, "quote") {
                return Ok(Exp::BuiltIn(BuiltIn::Quote));
            }
            if string_eq(a, "atom") {
                return Ok(Exp::BuiltIn(BuiltIn::Atom));
            }
            if string_eq(a, "eq") {
                return Ok(Exp::BuiltIn(BuiltIn::Eq));
            }
            if string_eq(a, "car") {
                return Ok(Exp::BuiltIn(BuiltIn::Car));
            }
            if string_eq(a, "cdr") {
                return Ok(Exp::BuiltIn(BuiltIn::Cdr));
            }
            if string_eq(a, "cons") {
                return Ok(Exp::BuiltIn(BuiltIn::Cons));
            }
            if string_eq(a, "cond") {
                return Ok(Exp::BuiltIn(BuiltIn::Cond));
            }
            if string_eq(a, "lambda") {
                return Ok(Exp::BuiltIn(BuiltIn::Lambda));
            }
            if string_eq(a, "def") {
                return Ok(Exp::BuiltIn(BuiltIn::Def));
            }
            if string_eq(a, "label") {
                return Ok(Exp::BuiltIn(BuiltIn::Label));
            }
            if string_eq(a, "prn") {
                return Ok(Exp::BuiltIn(BuiltIn::Inspect));
            }
            if string_eq(a, "+") {
                return Ok(Exp::BuiltIn(BuiltIn::Add));
            }
            if string_eq(a, "-") {
                return Ok(Exp::BuiltIn(BuiltIn::Subtract));
            }
            if string_eq(a, "defun") {
                return Ok(Exp::BuiltIn(BuiltIn::Defun));
            }
            if string_eq(a, "assert!") {
                return Ok(Exp::BuiltIn(BuiltIn::Assert));
            }
            if string_eq(a, "do") {
                return Ok(Exp::BuiltIn(BuiltIn::Do));
            }
            if string_eq(a, "int?") {
                return Ok(Exp::BuiltIn(BuiltIn::IsInt));
            }
            if string_eq(a, "bool?") {
                return Ok(Exp::BuiltIn(BuiltIn::IsBool));
            }
            if string_eq(a, "nil?") {
                return Ok(Exp::BuiltIn(BuiltIn::IsNil));
            }
            match env.get(a.clone()) {
                Some(value) => Ok(value),
                None => {
                    let mut bt: Vec<Exp> = Vec::new();
                    bt.push(exp.duplicate());
                    proof {
                        assert(exps_view(bt@) =~= seq![exp@]);
                    }
                    Err(
                        EvalError::Raise(
                            Exception {
                                etype: ExceptionType::UnknownSymbol,
                                message: a.clone(),
                                backtrace: bt,
                            },
                        ),
                    )
                },
            }
        },
        Exp::List(v) => {
            let ghost vv = exps_view(v@);
            if v.len() == 0 {
                return Ok(exp.duplicate());
            }
            proof {
                lemma_hsum_elem(vv, 0);
            }
            let first = match eval(&v[0], env, fuel) {
                Ok(f) => f,
                Err(e) => {
                    return Err(raise_with(e, exp));
                },
            };
            let ghost fr1 = env.frame();
            let ghost c1 = env.chain();
            match first {
                Exp::BuiltIn(op) => {
                    let args = clone_exps_from(v, 1);
                    proof {
                        assert(vv.subrange(0, vv.len() as int) =~= vv);
                        lemma_hsum_split(vv, 0);
                        assert(c1 =~= c0.update(0, fr1));
                    }
                    match op.call(args, env, fuel) {
                        Ok(val) => Ok(val),
                        Err(e) => Err(raise_with(e, exp)),
                    }
                },
                Exp::Function(f) => {
                    let args = clone_exps_from(v, 1);
                    proof {
                        assert(vv.subrange(0, vv.len() as int) =~= vv);
                        lemma_hsum_split(vv, 0);
                        assert(c1 =~= c0.update(0, fr1));
                    }
                    match f.call(args, env, fuel) {
                        Ok(val) => Ok(val),
                        Err(e) => Err(raise_with(e, exp)),
                    }
                },
                _ => {
                    let msg = match &first {
                        Exp::List(_) => "unknown".to_owned(),
                        Exp::Exception(_) => "unknown".to_owned(),
                        other => to_string(other),
                    };
                    let mut bt: Vec<Exp> = Vec::new();
                    bt.push(exp.duplicate());
                    proof {
                        assert(exps_view(bt@) =~= seq![exp@]);
                    }
                    Err(
                        EvalError::Raise(
                            Exception {
                                etype: ExceptionType::UncallableCalled,
                                message: msg,
                                backtrace: bt,
                            },
                        ),
                    )
                },
            }
        },
        _ => Ok(exp.duplicate()),
    }
}

/// Evaluates a program: each form in order against the same scope,
/// keeping the last value (`true` for an empty program) or stopping at
/// the first failure, exactly as `s_eval_all` says.
#[verifier::loop_isolation(false)]
pub fn eval_all(exps: &Vec<Exp>, env: &mut Env, fuel: u64) -> (r: Result<Exp, EvalError>)
    ensures
        final(env).chain() =~= old(env).chain().update(0, final(env).frame()),
        matches_out(
            s_eval_all(exps_view(exps@), old(env).chain(), fuel as nat),
            r,
            final(env).frame(),
        ),
{
    proof {
        broadcast use lemma_exps_view, lemma_chain_shape;

    }
    let ghost ev = exps_view(exps@);
    let ghost c0 = env.chain();
    if exps.len() == 0 {
        return Ok(Exp::Bool(true));
    }
    proof {
        assert(ev.subrange(0, ev.len() as int) =~= ev);
        assert(env.chain() =~= c0.update(0, env.frame()));
    }
    let mut k: usize = 0;
    while k + 1 < exps.len()
        invariant
            k < exps@.len(),
            env.chain() =~= c0.update(0, env.frame()),
            s_eval_all(ev, c0, fuel as nat) == s_eval_all(
                ev.subrange(k as int, ev.len() as int),
                env.chain(),
                fuel as nat,
            ),
        decreases exps@.len() - k,
    {
        match eval(&exps[k], env, fuel) {
            Ok(_) => {},
            Err(e) => {
                proof {
                    assert(ev.subrange(k as int, ev.len() as int)[0] == ev[k as int]);
                }
                return Err(e);
            },
        }
        proof {
            assert(ev.subrange(k as int, ev.len() as int)[0] == ev[k as int]);
            assert(ev.subrange(k as int, ev.len() as int).subrange(
                1,
                ev.len() - k,
            ) =~= ev.subrange(k + 1, ev.len() as int));
            assert(env.chain() =~= c0.update(0, env.frame()));
        }
        k = k + 1;
    }
    let r = eval(&exps[k], env, fuel);
    proof {
        assert(ev.subrange(k as int, ev.len() as int).len() == 1);
        assert(ev.subrange(k as int, ev.len() as int)[0] == ev[k as int]);
        assert(env.chain() =~= c0.update(0, env.frame()));
    }
    r
}

} // verus!
