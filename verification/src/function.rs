use vstd::prelude::*;

use crate::environment::{lemma_chain_shape, Env};
use crate::evaluator::{clone_exps_from, eval, matches_out, EvalError};
use crate::expressions::{exp_view, exps_view, lemma_exps_view, Exp, ExpV};
use crate::semantics::{
    bind_params, hsum, lemma_eval_args_len, lemma_hsum_split, s_body, s_call_function,
    s_eval_args, Fatal, SArgs, SOut,
};

verus! {

/// Evaluates an argument list left to right in the caller's scope,
/// starting at index `k`; exactly what `s_eval_args` says.
fn eval_args_rest(args: &Vec<Exp>, k: usize, env: &mut Env, fuel: u64) -> (r: Result<
    Vec<Exp>,
    EvalError,
>)
    requires
        k <= args@.len(),
    ensures
        final(env).chain() =~= old(env).chain().update(0, final(env).frame()),
        ({
            let out = s_eval_args(
                exps_view(args@).subrange(k as int, args@.len() as int),
                old(env).chain(),
                fuel as nat,
            );
            match r {
                Ok(vs) => out == SArgs::Vals(exps_view(vs@), final(env).frame()),
                Err(EvalError::Raise(x)) => out == SArgs::Exn(x@, final(env).frame()),
                Err(EvalError::Fatal(f)) => out == SArgs::Die(f),
            }
        }),
    decreases fuel, hsum(exps_view(args@).subrange(k as int, args@.len() as int)), 1int,
{
    proof {
        broadcast use lemma_exps_view, lemma_chain_shape;

    }
    let ghost ags = exps_view(args@);
    let ghost sub = ags.subrange(k as int, args@.len() as int);
    let ghost c0 = env.chain();
    if k == args.len() {
        let r: Vec<Exp> = Vec::new();
        proof {
            assert(exps_view(r@) =~= Seq::<ExpV>::empty());
        }
        return Ok(r);
    }
    proof {
        lemma_hsum_split(ags, k as int);
        assert(sub[0] == ags[k as int]);
    }
    match eval(&args[k], env, fuel) {
        Ok(v) => {
            let ghost c1 = env.chain();
            proof {
                assert(ags.subrange(k + 1, args@.len() as int) =~= sub.subrange(
                    1,
                    sub.len() as int,
                ));
                assert(c1 =~= c0.update(0, env.frame()));
            }
            match eval_args_rest(args, k + 1, env, fuel) {
                Ok(mut vs) => {
                    let ghost vsv = exps_view(vs@);
                    vs.insert(0, v);
                    proof {
                        assert(exps_view(vs@) =~= seq![v@] + vsv);
                        assert(env.chain() =~= c0.update(0, env.frame()));
                    }
                    Ok(vs)
                },
                Err(e) => Err(e),
            }
        },
        Err(e) => Err(e),
    }
}

/// Evaluates a non-empty function body in order from index `k`; the
/// last value stands.  Exactly what `s_body` says.
fn body_rest(body: &Vec<Exp>, k: usize, env: &mut Env, fuel: u64) -> (r: Result<Exp, EvalError>)
    requires
        k < body@.len(),
    ensures
        final(env).chain() =~= old(env).chain().update(0, final(env).frame()),
        matches_out(
            s_body(
                exps_view(body@).subrange(k as int, body@.len() as int),
                old(env).chain(),
                fuel as nat,
            ),
            r,
            final(env).frame(),
        ),
    decreases fuel, hsum(exps_view(body@).subrange(k as int, body@.len() as int)), 1int,
{
    proof {
        broadcast use lemma_exps_view, lemma_chain_shape;

    }
    let ghost bv = exps_view(body@);
    let ghost sub = bv.subrange(k as int, body@.len() as int);
    let ghost c0 = env.chain();
    proof {
        lemma_hsum_split(bv, k as int);
        assert(sub[0] == bv[k as int]);
    }
    if k == body.len() - 1 {
        let r = eval(&body[k], env, fuel);
        proof {
            assert(sub.len() == 1);
        }
        return r;
    }
    match eval(&body[k], env, fuel) {
        Ok(_) => {
            proof {
                assert(bv.subrange(k + 1, body@.len() as int) =~= sub.subrange(
                    1,
                    sub.len() as int,
                ));
                assert(env.chain() =~= c0.update(0, env.frame()));
            }
            let r = body_rest(body, k + 1, env, fuel);
            proof {
                assert(env.chain() =~= c0.update(0, env.frame()));
            }
            r
        },
        Err(e) => Err(e),
    }
}

impl crate::expressions::Function {
    /// Calls a user-defined function: the argument count must match the
    /// parameter count; the arguments are evaluated in the caller's
    /// scope; a fresh scope chained to the caller's binds each
    /// parameter name and, when set, the self-reference name; the body
    /// then runs in that scope with one budget step consumed, and the
    /// scope is discarded.  Exactly what `s_call_function` says.
    #[verifier::loop_isolation(false)]
    pub fn call(&self, args: Vec<Exp>, env: &mut Env, fuel: u64) -> (r: Result<Exp, EvalError>)
        ensures
            final(env).chain() =~= old(env).chain().update(0, final(env).frame()),
            matches_out(
                s_call_function(self@, exps_view(args@), old(env).chain(), fuel as nat),
                r,
                final(env).frame(),
            ),
        decreases fuel, hsum(exps_view(args@)), 2int,
    {
        proof {
            broadcast use lemma_exps_view, lemma_chain_shape;

        }
        let ghost fv = self@;
        let ghost ags = exps_view(args@);
        let ghost c0 = env.chain();
        if args.len() != self.arg_names.len() {
            return Err(EvalError::Fatal(Fatal::WrongArgCount));
        }
        proof {
            assert(ags.subrange(0, args@.len() as int) =~= ags);
            assert(self@.arg_names == exps_view(self.arg_names@));
            assert(self@.arg_names.len() == self.arg_names@.len());
            assert(self@.body_exps == exps_view(self.body_exps@));
        }
        let vals = match eval_args_rest(&args, 0, env, fuel) {
            Ok(vs) => vs,
            Err(e) => {
                return Err(e);
            },
        };
        let ghost fr = env.frame();
        let ghost c1 = env.chain();
        let ghost anv = exps_view(self.arg_names@);
        let ghost vlv = exps_view(vals@);
        proof {
            lemma_eval_args_len(ags, c0, fuel as nat);
            assert(vlv.len() == ags.len());
        }
        let mut function_env = Env::new_with_parent(env);
        let mut i: usize = 0;
        while i < vals.len()
            invariant
                i <= vals@.len(),
                vals@.len() == self.arg_names@.len(),
                anv == exps_view(self.arg_names@),
                vlv == exps_view(vals@),
                anv.len() == self.arg_names@.len(),
                vlv.len() == vals@.len(),
                forall|j: int| 0 <= j < anv.len() ==> #[trigger] anv[j] == exp_view(
                    self.arg_names@[j],
                ),
                forall|j: int| 0 <= j < vlv.len() ==> #[trigger] vlv[j] == exp_view(vals@[j]),
                forall|j: int| 0 <= j < i ==> (#[trigger] anv[j]) is Atom,
                function_env.chain() =~= seq![
                    bind_params(anv.take(i as int), vlv.take(i as int)),
                ] + c1,
            decreases vals@.len() - i,
        {
            match &self.arg_names[i] {
                Exp::Atom(n) => {
                    function_env.set(n.clone(), vals[i].duplicate());
                    proof {
                        assert(anv.take(i + 1).subrange(0, i as int) =~= anv.take(i as int));
                        assert(vlv.take(i + 1).subrange(0, i as int) =~= vlv.take(i as int));
                        assert(anv.take(i + 1)[i as int] == anv[i as int]);
                        assert(vlv.take(i + 1)[i as int] == vlv[i as int]);
                        assert(bind_params(anv.take(i + 1), vlv.take(i + 1)) == bind_params(
                            anv.take(i as int),
                            vlv.take(i as int),
                        ).push((anv[i as int]->Atom_0, vlv[i as int])));
                        assert(function_env.chain() =~= seq![
                            bind_params(anv.take(i + 1), vlv.take(i + 1)),
                        ] + c1);
                    }
                },
                _ => {
                    proof {
                        assert(!crate::semantics::all_atoms(anv));
                    }
                    return Err(EvalError::Fatal(Fatal::BadSpecialForm));
                },
            }
            i = i + 1;
        }
        proof {
            assert(crate::semantics::all_atoms(anv));
            assert(anv.take(anv.len() as int) =~= anv);
            assert(vlv.take(vlv.len() as int) =~= vlv);
        }
        if fuel == 0 {
            return Err(EvalError::Fatal(Fatal::DepthLimit));
        }
        if self.body_exps.len() == 0 {
            return Err(EvalError::Fatal(Fatal::EmptyBody));
        }
        let ghost bound = bind_params(anv, vlv);
        match &self.self_name {
            Some(name) => {
                function_env.set(name.clone(), Exp::Function(self.clone()));
                proof {
                    assert(function_env.chain() =~= seq![
                        bound.push((name@, ExpV::Function(fv))),
                    ] + c1);
                }
            },
            None => {},
        }
        proof {
            assert(exps_view(self.body_exps@).subrange(
                0,
                self.body_exps@.len() as int,
            ) =~= exps_view(self.body_exps@));
        }
        let r = body_rest(&self.body_exps, 0, &mut function_env, fuel - 1);
        proof {
            assert(env.chain() == c1);
            assert(env.frame() == fr);
            assert(env.chain() =~= c0.update(0, env.frame()));
        }
        match r {
            Ok(v) => Ok(v),
            Err(e) => Err(e),
        }
    }
}

} // verus!
