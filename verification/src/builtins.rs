use vstd::prelude::*;

use std::io::Write;

use crate::environment::{lemma_chain_shape, Env};
use crate::evaluator::{clone_exps_from, eval, matches_out, EvalError};
use crate::expressions::{
    exp_view, exps_view, lemma_exps_view, Exception, ExceptionType, Exp, ExpV, Function,
};
use crate::semantics::{
    hsum, lemma_hsum_elem, lemma_hsum_split, s_builtin, s_cond, s_do, s_eq_rest, s_sub_rest, s_sum,
    Fatal, SOut,
};

verus! {

/// The tag of a primitive operation.  A builtin receives its argument
/// expressions unevaluated, so forms like `quote`, `cond` and `lambda`
/// can decide for themselves what to evaluate.
#[derive(Debug, Clone, Copy, PartialEq, Eq, Structural)]
pub enum BuiltIn {
    Quote,
    Atom,
    Eq,
    Car,
    Cdr,
    Cons,
    Cond,
    Lambda,
    Def,
    Label,
    Inspect,
    Add,
    Subtract,
    Defun,
    Assert,
    Do,
    IsInt,
    IsBool,
    IsNil,
}

/// Sends one rendered line to standard output, as `prn` asks.
/// Relies on `std::io::Stdout` for the write alone.
#[verifier::external_body]
fn print_line(s: &String) {
    let mut out = std::io::stdout();
    let _ = writeln!(&mut out, "{}", s);
}

/// `eq` over the arguments from index `k` on, all compared with the
/// value of the first; exactly what `s_eq_rest` says.
fn eq_rest(first: &Exp, args: &Vec<Exp>, k: usize, env: &mut Env, fuel: u64) -> (r: Result<
    Exp,
    EvalError,
>)
    requires
        k <= args@.len(),
    ensures
        final(env).chain() =~= old(env).chain().update(0, final(env).frame()),
        matches_out(
            s_eq_rest(
                first@,
                exps_view(args@).subrange(k as int, args@.len() as int),
                old(env).chain(),
                fuel as nat,
            ),
            r,
            final(env).frame(),
        ),
    decreases fuel, hsum(exps_view(args@).subrange(k as int, args@.len() as int)), 1int,
{
    proof {
        broadcast use lemma_exps_view, lemma_chain_shape;

    }
    let ghost ags = exps_view(args@);
    let ghost sub = ags.subrange(k as int, args@.len() as int);
    let ghost c0 = env.chain();
    if k == args.len() {
        return Ok(Exp::Bool(true));
    }
    proof {
        lemma_hsum_split(ags, k as int);
        assert(sub[0] == ags[k as int]);
    }
    match eval(&args[k], env, fuel) {
        Ok(v) => {
            if first.exp_eq(&v) {
                proof {
                    assert(ags.subrange(k + 1, args@.len() as int) =~= sub.subrange(
                        1,
                        sub.len() as int,
                    ));
                }
                let r = eq_rest(first, args, k + 1, env, fuel);
                proof {
                    assert(env.chain() =~= c0.update(0, env.frame()));
                }
                r
            } else {
                Ok(Exp::Bool(false))
            }
        },
        Err(e) => Err(e),
    }
}

/// `cond` over the (test, value) pairs from index `k` on; exactly what
/// `s_cond` says.
fn cond_rest(args: &Vec<Exp>, k: usize, env: &mut Env, fuel: u64) -> (r: Result<Exp, EvalError>)
    requires
        k <= args@.len(),
    ensures
        final(env).chain() =~= old(env).chain().update(0, final(env).frame()),
        matches_out(
            s_cond(
                exps_view(args@).subrange(k as int, args@.len() as int),
                old(env).chain(),
                fuel as nat,
            ),
            r,
            final(env).frame(),
        ),
    decreases fuel, hsum(exps_view(args@).subrange(k as int, args@.len() as int)), 1int,
{
    proof {
        broadcast use lemma_exps_view, lemma_chain_shape;

    }
    let ghost ags = exps_view(args@);
    let ghost sub = ags.subrange(k as int, args@.len() as int);
    let ghost c0 = env.chain();
    if args.len() - k < 2 {
        let r: Vec<Exp> = Vec::new();
        proof {
            assert(exps_view(r@) =~= Seq::<ExpV>::empty());
        }
        return Ok(Exp::List(r));
    }
    proof {
        lemma_hsum_split(ags, k as int);
        lemma_hsum_split(ags, k + 1);
        assert(sub[0] == ags[k as int]);
        assert(sub[1] == ags[k + 1]);
    }
    match eval(&args[k], env, fuel) {
        Ok(t) => {
            let is_true = match &t {
                Exp::Bool(b) => *b,
                _ => false,
            };
            if is_true {
                let r = eval(&args[k + 1], env, fuel);
                proof {
                    assert(env.chain() =~= c0.update(0, env.frame()));
                }
                r
            } else {
                proof {
                    assert(ags.subrange(k + 2, args@.len() as int) =~= sub.subrange(
                        2,
                        sub.len() as int,
                    ));
                }
                let r = cond_rest(args, k + 2, env, fuel);
                proof {
                    assert(env.chain() =~= c0.update(0, env.frame()));
                }
                r
            }
        },
        Err(e) => Err(e),
    }
}

/// `do`-style sequencing from index `k`, carrying the last value, and
/// printing each when asked (`prn`); exactly what `s_do` says.
fn do_rest(
    args: &Vec<Exp>,
    k: usize,
    last: Exp,
    printing: bool,
    env: &mut Env,
    fuel: u64,
) -> (r: Result<Exp, EvalError>)
    requires
        k <= args@.len(),
    ensures
        final(env).chain() =~= old(env).chain().update(0, final(env).frame()),
        matches_out(
            s_do(
                exps_view(args@).subrange(k as int, args@.len() as int),
                old(env).chain(),
                fuel as nat,
                last@,
            ),
            r,
            final(env).frame(),
        ),
    decreases fuel, hsum(exps_view(args@).subrange(k as int, args@.len() as int)), 1int,
{
    proof {
        broadcast use lemma_exps_view, lemma_chain_shape;

    }
    let ghost ags = exps_view(args@);
    let ghost sub = ags.subrange(k as int, args@.len() as int);
    let ghost c0 = env.chain();
    if k == args.len() {
        return Ok(last);
    }
    proof {
        lemma_hsum_split(ags, k as int);
        assert(sub[0] == ags[k as int]);
    }
    match eval(&args[k], env, fuel) {
        Ok(v) => {
            if printing {
                let line = crate::to_string::to_string(&v);
                print_line(&line);
            }
            proof {
                assert(ags.subrange(k + 1, args@.len() as int) =~= sub.subrange(
                    1,
                    sub.len() as int,
                ));
            }
            let r = do_rest(args, k + 1, v, printing, env, fuel);
            proof {
                assert(env.chain() =~= c0.update(0, env.frame()));
            }
            r
        },
        Err(e) => Err(e),
    }
}

/// `+` over the arguments from index `k`, with running total `acc`;
/// exactly what `s_sum` says.
fn sum_rest(args: &Vec<Exp>, k: usize, acc: i32, env: &mut Env, fuel: u64) -> (r: Result<
    Exp,
    EvalError,
>)
    requires
        k <= args@.len(),
    ensures
        final(env).chain() =~= old(env).chain().update(0, final(env).frame()),
        matches_out(
            s_sum(
                exps_view(args@).subrange(k as int, args@.len() as int),
                old(env).chain(),
                fuel as nat,
                acc as int,
            ),
            r,
            final(env).frame(),
        ),
    decreases fuel, hsum(exps_view(args@).subrange(k as int, args@.len() as int)), 1int,
{
    proof {
        broadcast use lemma_exps_view, lemma_chain_shape;

    }
    let ghost ags = exps_view(args@);
    let ghost sub = ags.subrange(k as int, args@.len() as int);
    let ghost c0 = env.chain();
    if k == args.len() {
        return Ok(Exp::Int(acc));
    }
    proof {
        lemma_hsum_split(ags, k as int);
        assert(sub[0] == ags[k as int]);
    }
    match eval(&args[k], env, fuel) {
        Ok(v) => match v {
            Exp::Int(i) => match acc.checked_add(i) {
                Some(n) => {
                    proof {
                        assert(ags.subrange(k + 1, args@.len() as int) =~= sub.subrange(
                            1,
                            sub.len() as int,
                        ));
                    }
                    let r = sum_rest(args, k + 1, n, env, fuel);
                    proof {
                        assert(env.chain() =~= c0.update(0, env.frame()));
                    }
                    r
                },
                None => Err(EvalError::Fatal(Fatal::Overflow)),
            },
            _ => Err(EvalError::Fatal(Fatal::TypeMismatch)),
        },
        Err(e) => Err(e),
    }
}

/// `-` over the arguments from index `k`, subtracting each integer
/// from `acc` and silently ignoring any other value; exactly what
/// `s_sub_rest` says.
fn sub_rest(args: &Vec<Exp>, k: usize, acc: i32, env: &mut Env, fuel: u64) -> (r: Result<
    Exp,
    EvalError,
>)
    requires
        k <= args@.len(),
    ensures
        final(env).chain() =~= old(env).chain().update(0, final(env).frame()),
        matches_out(
            s_sub_rest(
                exps_view(args@).subrange(k as int, args@.len() as int),
                old(env).chain(),
                fuel as nat,
                acc as int,
            ),
            r,
            final(env).frame(),
        ),
    decreases fuel, hsum(exps_view(args@).subrange(k as int, args@.len() as int)), 1int,
{
    proof {
        broadcast use lemma_exps_view, lemma_chain_shape;

    }
    let ghost ags = exps_view(args@);
    let ghost sub = ags.subrange(k as int, args@.len() as int);
    let ghost c0 = env.chain();
    if k == args.len() {
        return Ok(Exp::Int(acc));
    }
    proof {
        lemma_hsum_split(ags, k as int);
        assert(sub[0] == ags[k as int]);
    }
    match eval(&args[k], env, fuel) {
        Ok(v) => {
            proof {
                assert(ags.subrange(k + 1, args@.len() as int) =~= sub.subrange(
                    1,
                    sub.len() as int,
                ));
            }
            match v {
                Exp::Int(i) => match acc.checked_sub(i) {
                    Some(n) => {
                        let r = sub_rest(args, k + 1, n, env, fuel);
                        proof {
                            assert(env.chain() =~= c0.update(0, env.frame()));
                        }
                        r
                    },
                    None => Err(EvalError::Fatal(Fatal::Overflow)),
                },
                _ => {
                    let r = sub_rest(args, k + 1, acc, env, fuel);
                    proof {
                        assert(env.chain() =~= c0.update(0, env.frame()));
                    }
                    r
                },
            }
        },
        Err(e) => Err(e),
    }
}

impl BuiltIn {
    /// Dispatches this builtin on its unevaluated arguments; the
    /// result, exception or fatal condition is exactly what
    /// `s_builtin` says, and only the scope's own frame changes.
    #[verifier::rlimit(60)]
    pub fn call(&self, args: Vec<Exp>, env: &mut Env, fuel: u64) -> (r: Result<Exp, EvalError>)
        ensures
            final(env).chain() =~= old(env).chain().update(0, final(env).frame()),
            matches_out(
                s_builtin(*self, exps_view(args@), old(env).chain(), fuel as nat),
                r,
                final(env).frame(),
            ),
        decreases fuel, hsum(exps_view(args@)), 2int,
    {
        proof {
            broadcast use lemma_exps_view, lemma_chain_shape;

        }
        let ghost ags = exps_view(args@);
        let ghost c0 = env.chain();
        match self {
            BuiltIn::Quote => {
                if args.len() == 0 {
                    return Err(EvalError::Fatal(Fatal::MissingArgument));
                }
                Ok(args[0].duplicate())
            },
            BuiltIn::Atom => {
                if args.len() == 0 {
                    return Err(EvalError::Fatal(Fatal::MissingArgument));
                }
                proof {
                    lemma_hsum_elem(ags, 0);
                }
                match eval(&args[0], env, fuel) {
                    Ok(v) => {
                        let b = match &v {
                            Exp::Atom(_) => true,
                            _ => false,
                        };
                        Ok(Exp::Bool(b))
                    },
                    Err(e) => Err(e),
                }
            },
            BuiltIn::Eq => {
                if args.len() < 2 {
                    return Ok(Exp::Bool(true));
                }
                proof {
                    lemma_hsum_elem(ags, 0);
                }
                match eval(&args[0], env, fuel) {
                    Ok(first) => {
                        proof {
                            lemma_hsum_split(ags, 0);
                            assert(ags.subrange(0, ags.len() as int) =~= ags);
                        }
                        let r = eq_rest(&first, &args, 1, env, fuel);
                        proof {
                            assert(env.chain() =~= c0.update(0, env.frame()));
                        }
                        r
                    },
                    Err(e) => Err(e),
                }
            },
            BuiltIn::Car => {
                if args.len() == 0 {
                    return Err(EvalError::Fatal(Fatal::MissingArgument));
                }
                proof {
                    lemma_hsum_elem(ags, 0);
                }
                match eval(&args[0], env, fuel) {
                    Ok(v) => match &v {
                        Exp::List(items) => {
                            if items.len() > 0 {
                                let r0 = items[0].duplicate();
                                proof {
                                    assert(v@ == ExpV::List(exps_view(items@)));
                                    assert(r0@ == exps_view(items@)[0]);
                                    assert(matches_out(
                                        s_builtin(*self, ags, c0, fuel as nat),
                                        Ok(r0),
                                        env.frame(),
                                    ));
                                }
                                Ok(r0)
                            } else {
                                let empty: Vec<Exp> = Vec::new();
                                proof {
                                    assert(exps_view(empty@) =~= Seq::<ExpV>::empty());
                                    assert(matches_out(
                                        s_builtin(*self, ags, c0, fuel as nat),
                                        Ok(Exp::List(empty)),
                                        env.frame(),
                                    ));
                                }
                                Ok(Exp::List(empty))
                            }
                        },
                        _ => Err(EvalError::Fatal(Fatal::TypeMismatch)),
                    },
                    Err(e) => Err(e),
                }
            },
            BuiltIn::Cdr => {
                if args.len() == 0 {
                    return Err(EvalError::Fatal(Fatal::MissingArgument));
                }
                proof {
                    lemma_hsum_elem(ags, 0);
                }
                match eval(&args[0], env, fuel) {
                    Ok(v) => match &v {
                        Exp::List(items) => {
                            proof {
                                assert(v@ == ExpV::List(exps_view(items@)));
                            }
                            if items.len() > 1 {
                                let rest = clone_exps_from(items, 1);
                                proof {
                                    assert(matches_out(
                                        s_builtin(*self, ags, c0, fuel as nat),
                                        Ok(Exp::List(rest)),
                                        env.frame(),
                                    ));
                                }
                                Ok(Exp::List(rest))
                            } else {
                                let empty: Vec<Exp> = Vec::new();
                                proof {
                                    assert(exps_view(empty@) =~= Seq::<ExpV>::empty());
                                    assert(matches_out(
                                        s_builtin(*self, ags, c0, fuel as nat),
                                        Ok(Exp::List(empty)),
                                        env.frame(),
                                    ));
                                }
                                Ok(Exp::List(empty))
                            }
                        },
                        _ => Err(EvalError::Fatal(Fatal::TypeMismatch)),
                    },
                    Err(e) => Err(e),
                }
            },
            BuiltIn::Cons => {
                if args.len() == 0 {
                    return Err(EvalError::Fatal(Fatal::MissingArgument));
                }
                proof {
                    lemma_hsum_elem(ags, 0);
                }
                match eval(&args[0], env, fuel) {
                    Ok(head) => {
                        if args.len() < 2 {
                            return Err(EvalError::Fatal(Fatal::MissingArgument));
                        }
                        proof {
                            lemma_hsum_elem(ags, 1);
                            assert(env.chain() =~= c0.update(0, env.frame()));
                        }
                        match eval(&args[1], env, fuel) {
                            Ok(second) => match &second {
                                Exp::List(items) => {
                                    let ghost itv = exps_view(items@);
                                    let ghost headv = head@;
                                    proof {
                                        assert(second@ == ExpV::List(itv));
                                    }
                                    let mut nv = clone_exps_from(items, 0);
                                    let ghost dupv = nv@;
                                    nv.insert(0, head);
                                    proof {
                                        assert(itv.subrange(0, itv.len() as int) =~= itv);
                                        assert(nv@ =~= seq![nv@[0]] + dupv);
                                        assert(exps_view(nv@) =~= seq![headv] + itv);
                                        assert(env.chain() =~= c0.update(0, env.frame()));
                                        assert(matches_out(
                                            s_builtin(*self, ags, c0, fuel as nat),
                                            Ok(Exp::List(nv)),
                                            env.frame(),
                                        ));
                                    }
                                    Ok(Exp::List(nv))
                                },
                                _ => Err(EvalError::Fatal(Fatal::TypeMismatch)),
                            },
                            Err(e) => Err(e),
                        }
                    },
                    Err(e) => Err(e),
                }
            },
            BuiltIn::Cond => {
                proof {
                    assert(ags.subrange(0, ags.len() as int) =~= ags);
                }
                cond_rest(&args, 0, env, fuel)
            },
            BuiltIn::Lambda => {
                if args.len() == 0 {
                    return Err(EvalError::Fatal(Fatal::MissingArgument));
                }
                match &args[0] {
                    Exp::List(params) => {
                        let f = Function {
                            arg_names: clone_exps_from(params, 0),
                            body_exps: clone_exps_from(&args, 1),
                            self_name: None,
                        };
                        proof {
                            assert(exps_view(params@).subrange(
                                0,
                                exps_view(params@).len() as int,
                            ) =~= exps_view(params@));
                            assert(f@ =~= crate::expressions::FunctionV {
                                arg_names: ags[0]->List_0,
                                body_exps: ags.subrange(1, ags.len() as int),
                                self_name: None,
                            });
                        }
                        Ok(Exp::Function(f))
                    },
                    _ => Err(EvalError::Fatal(Fatal::BadSpecialForm)),
                }
            },
            BuiltIn::Def => {
                if args.len() == 0 {
                    return Err(EvalError::Fatal(Fatal::MissingArgument));
                }
                let name = match &args[0] {
                    Exp::Atom(n) => n.clone(),
                    _ => {
                        return Err(EvalError::Fatal(Fatal::BadSpecialForm));
                    },
                };
                if args.len() < 2 {
                    return Err(EvalError::Fatal(Fatal::MissingArgument));
                }
                proof {
                    lemma_hsum_elem(ags, 1);
                }
                match eval(&args[1], env, fuel) {
                    Ok(value) => {
                        let ghost valv = value@;
                        let ghost fr1 = env.frame();
                        env.set(name, value);
                        proof {
                            assert(env.chain() =~= c0.update(0, env.frame()));
                            assert(env.frame() == fr1.push((exp_view(args@[0])->Atom_0, valv)));
                        }
                        Ok(Exp::Bool(true))
                    },
                    Err(e) => Err(e),
                }
            },
            BuiltIn::Label => {
                if args.len() == 0 {
                    return Err(EvalError::Fatal(Fatal::MissingArgument));
                }
                let name = match &args[0] {
                    Exp::Atom(n) => n.clone(),
                    _ => {
                        return Err(EvalError::Fatal(Fatal::BadSpecialForm));
                    },
                };
                if args.len() < 2 {
                    return Err(EvalError::Fatal(Fatal::MissingArgument));
                }
                proof {
                    lemma_hsum_elem(ags, 1);
                }
                match eval(&args[1], env, fuel) {
                    Ok(v) => match &v {
                        Exp::Function(f) => {
                            proof {
                                assert(v@ == ExpV::Function(f@));
                            }
                            let g = Function {
                                arg_names: clone_exps_from(&f.arg_names, 0),
                                body_exps: clone_exps_from(&f.body_exps, 0),
                                self_name: Some(name),
                            };
                            proof {
                                assert(exps_view(f.arg_names@).subrange(
                                    0,
                                    exps_view(f.arg_names@).len() as int,
                                ) =~= exps_view(f.arg_names@));
                                assert(exps_view(f.body_exps@).subrange(
                                    0,
                                    exps_view(f.body_exps@).len() as int,
                                ) =~= exps_view(f.body_exps@));
                                assert(g@ =~= crate::expressions::FunctionV {
                                    arg_names: f@.arg_names,
                                    body_exps: f@.body_exps,
                                    self_name: Some(exp_view(args@[0])->Atom_0),
                                });
                                assert(matches_out(
                                    s_builtin(*self, ags, c0, fuel as nat),
                                    Ok(Exp::Function(g)),
                                    env.frame(),
                                ));
                            }
                            Ok(Exp::Function(g))
                        },
                        _ => Err(EvalError::Fatal(Fatal::BadSpecialForm)),
                    },
                    Err(e) => Err(e),
                }
            },
            BuiltIn::Inspect => {
                proof {
                    assert(ags.subrange(0, ags.len() as int) =~= ags);
                }
                do_rest(&args, 0, Exp::Nil, true, env, fuel)
            },
            BuiltIn::Add => {
                proof {
                    assert(ags.subrange(0, ags.len() as int) =~= ags);
                }
                sum_rest(&args, 0, 0, env, fuel)
            },
            BuiltIn::Subtract => {
                if args.len() == 0 {
                    return Err(EvalError::Fatal(Fatal::MissingArgument));
                }
                proof {
                    lemma_hsum_elem(ags, 0);
                }
                match eval(&args[0], env, fuel) {
                    Ok(v) => match v {
                        Exp::Int(i) => {
                            proof {
                                lemma_hsum_split(ags, 0);
                                assert(ags.subrange(0, ags.len() as int) =~= ags);
                            }
                            let r = sub_rest(&args, 1, i, env, fuel);
                            proof {
                                assert(env.chain() =~= c0.update(0, env.frame()));
                            }
                            r
                        },
                        _ => Err(EvalError::Fatal(Fatal::TypeMismatch)),
                    },
                    Err(e) => Err(e),
                }
            },
            BuiltIn::Defun => {
                if args.len() == 0 {
                    return Err(EvalError::Fatal(Fatal::MissingArgument));
                }
                let name = match &args[0] {
                    Exp::Atom(n) => n.clone(),
                    _ => {
                        return Err(
                            EvalError::Raise(
                                Exception {
                                    etype: ExceptionType::ArgumentError,
                                    message: "First arg to defun should be an atom".to_owned(),
                                    backtrace: Vec::new(),
                                },
                            ),
                        );
                    },
                };
                if args.len() < 2 {
                    return Err(EvalError::Fatal(Fatal::MissingArgument));
                }
                match &args[1] {
                    Exp::List(params) => {
                        let f = Function {
                            arg_names: clone_exps_from(params, 0),
                            body_exps: clone_exps_from(&args, 2),
                            self_name: Some(name.clone()),
                        };
                        let fc = f.clone();
                        env.set(name, Exp::Function(fc));
                        proof {
                            assert(exps_view(params@).subrange(
                                0,
                                exps_view(params@).len() as int,
                            ) =~= exps_view(params@));
                            assert(f@ =~= crate::expressions::FunctionV {
                                arg_names: exp_view(args@[1])->List_0,
                                body_exps: ags.subrange(2, ags.len() as int),
                                self_name: Some(exp_view(args@[0])->Atom_0),
                            });
                            assert(env.chain() =~= c0.update(0, env.frame()));
                        }
                        Ok(Exp::Function(f))
                    },
                    _ => Err(
                        EvalError::Raise(
                            Exception {
                                etype: ExceptionType::ArgumentError,
                                message: "Second arg to defun should be a list of atoms".to_owned(),
                                backtrace: Vec::new(),
                            },
                        ),
                    ),
                }
            },
            BuiltIn::Assert => {
                if args.len() == 0 {
                    return Err(EvalError::Fatal(Fatal::MissingArgument));
                }
                proof {
                    lemma_hsum_elem(ags, 0);
                }
                match eval(&args[0], env, fuel) {
                    Ok(v) => {
                        let ok = match &v {
                            Exp::Bool(b) => *b,
                            _ => false,
                        };
                        if ok {
                            Ok(Exp::Bool(true))
                        } else {
                            Err(
                                EvalError::Raise(
                                    Exception {
                                        etype: ExceptionType::AssertionFailed,
                                        message: "Assertion failed".to_owned(),
                                        backtrace: Vec::new(),
                                    },
                                ),
                            )
                        }
                    },
                    Err(e) => Err(e),
                }
            },
            BuiltIn::Do => {
                proof {
                    assert(ags.subrange(0, ags.len() as int) =~= ags);
                }
                do_rest(&args, 0, Exp::Bool(true), false, env, fuel)
            },
            BuiltIn::IsInt => {
                if args.len() == 0 {
                    return Err(EvalError::Fatal(Fatal::MissingArgument));
                }
                proof {
                    lemma_hsum_elem(ags, 0);
                }
                match eval(&args[0], env, fuel) {
                    Ok(v) => {
                        let b = match &v {
                            Exp::Int(_) => true,
                            _ => false,
                        };
                        Ok(Exp::Bool(b))
                    },
                    Err(e) => Err(e),
                }
            },
            BuiltIn::IsBool => {
                if args.len() == 0 {
                    return Err(EvalError::Fatal(Fatal::MissingArgument));
                }
                proof {
                    lemma_hsum_elem(ags, 0);
                }
                match eval(&args[0], env, fuel) {
                    Ok(v) => {
                        let b = match &v {
                            Exp::Bool(_) => true,
                            _ => false,
                        };
                        Ok(Exp::Bool(b))
                    },
                    Err(e) => Err(e),
                }
            },
            BuiltIn::IsNil => {
                if args.len() == 0 {
                    return Err(EvalError::Fatal(Fatal::MissingArgument));
                }
                proof {
                    lemma_hsum_elem(ags, 0);
                }
                match eval(&args[0], env, fuel) {
                    Ok(v) => {
                        let b = match &v {
                            Exp::Nil => true,
                            _ => false,
                        };
                        Ok(Exp::Bool(b))
                    },
                    Err(e) => Err(e),
                }
            },
        }
    }
}

} // verus!
