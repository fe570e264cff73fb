use vstd::prelude::*;

use crate::builtins::BuiltIn;
use crate::environment::{lookup_chain, FrameV};
use crate::expressions::{ExceptionType, ExceptionV, ExpV, FunctionV};
use crate::to_string::{int_chars, render};

verus! {

/// A condition that ends the whole program at once, as distinct from a
/// recoverable exception that language code could observe: a builtin or
/// call was handed syntax it cannot take, arithmetic left the 32-bit
/// range, or evaluation went deeper than the given budget allows.
#[derive(Debug, Clone, Copy, PartialEq, Eq, Structural)]
pub enum Fatal {
    MissingArgument,
    WrongArgCount,
    TypeMismatch,
    BadSpecialForm,
    EmptyBody,
    Overflow,
    DepthLimit,
}

/// What one evaluation step yields: a value or a raised exception —
/// each with the evaluator's own binding frame as it then stands — or a
/// fatal condition that ends the program.
pub enum SOut {
    Val(ExpV, FrameV),
    Exn(ExceptionV, FrameV),
    Die(Fatal),
}

/// What evaluating an argument list yields: every value, in order, or
/// the first failure.
pub enum SArgs {
    Vals(Seq<ExpV>, FrameV),
    Exn(ExceptionV, FrameV),
    Die(Fatal),
}

/// The builtin named by a symbol, if any.
pub open spec fn keyword_of(a: Seq<char>) -> Option<BuiltIn> {
    if a == "quote"@ {
        Some(BuiltIn::Quote)
    } else if a == "atom"@ {
        Some(BuiltIn::Atom)
    } else if a == "eq"@ {
        Some(BuiltIn::Eq)
    } else if a == "car"@ {
        Some(BuiltIn::Car)
    } else if a == "cdr"@ {
        Some(BuiltIn::Cdr)
    } else if a == "cons"@ {
        Some(BuiltIn::Cons)
    } else if a == "cond"@ {
        Some(BuiltIn::Cond)
    } else if a == "lambda"@ {
        Some(BuiltIn::Lambda)
    } else if a == "def"@ {
        Some(BuiltIn::Def)
    } else if a == "label"@ {
        Some(BuiltIn::Label)
    } else if a == "prn"@ {
        Some(BuiltIn::Inspect)
    } else if a == "+"@ {
        Some(BuiltIn::Add)
    } else if a == "-"@ {
        Some(BuiltIn::Subtract)
    } else if a == "defun"@ {
        Some(BuiltIn::Defun)
    } else if a == "assert!"@ {
        Some(BuiltIn::Assert)
    } else if a == "do"@ {
        Some(BuiltIn::Do)
    } else if a == "int?"@ {
        Some(BuiltIn::IsInt)
    } else if a == "bool?"@ {
        Some(BuiltIn::IsBool)
    } else if a == "nil?"@ {
        Some(BuiltIn::IsNil)
    } else {
        None
    }
}

/// A value fits in a signed 32-bit integer.
pub open spec fn in_i32(x: int) -> bool {
    i32::MIN <= x <= i32::MAX
}

/// The exception `x` with `e` appended to its trail, as each unwinding
/// frame does on the way out.
pub open spec fn push_bt(x: ExceptionV, e: ExpV) -> ExceptionV {
    ExceptionV { etype: x.etype, message: x.message, backtrace: x.backtrace.push(e) }
}

/// A fresh exception with an empty trail.
pub open spec fn exn(t: ExceptionType, message: Seq<char>) -> ExceptionV {
    ExceptionV { etype: t, message, backtrace: Seq::empty() }
}

/// The message an uncallable value is reported with: its rendered form,
/// except that lists and exception values are reported as `unknown`.
pub open spec fn uncallable_message(v: ExpV) -> Seq<char> {
    match v {
        ExpV::Atom(a) => a,
        ExpV::Int(i) => int_chars(i),
        ExpV::Bool(b) => render(ExpV::Bool(b)),
        ExpV::Nil => "nil"@,
        _ => "unknown"@,
    }
}

/// The parameter frame of a call: each name bound to its value, in
/// order, so a repeated name ends up with the last value.
pub open spec fn bind_params(names: Seq<ExpV>, vals: Seq<ExpV>) -> FrameV
    decreases names,
{
    if names.len() == 0 || names.len() != vals.len() {
        Seq::empty()
    } else {
        let n = names.len();
        bind_params(names.subrange(0, n - 1), vals.subrange(0, n - 1)).push(
            (names[n - 1]->Atom_0, vals[n - 1]),
        )
    }
}

/// Every parameter name is a plain symbol.
pub open spec fn all_atoms(names: Seq<ExpV>) -> bool {
    forall|i: int| 0 <= i < names.len() ==> (#[trigger] names[i]) is Atom
}

/// Evaluates one expression against a chain of binding frames,
/// innermost first, with a recursion budget.  This is the meaning of
/// the language: the executable evaluator returns exactly this.
///
/// An empty list evaluates to itself; the empty combination is not
/// otherwise given a meaning.
pub open spec fn s_eval(e: ExpV, env: Seq<FrameV>, fuel: nat) -> SOut
    decreases fuel, e, 0int,
{
    match e {
        ExpV::Atom(a) => match keyword_of(a) {
            Some(b) => SOut::Val(ExpV::BuiltIn(b), env[0]),
            None => match lookup_chain(env, a) {
                Some(v) => SOut::Val(v, env[0]),
                None => SOut::Exn(
                    ExceptionV {
                        etype: ExceptionType::UnknownSymbol,
                        message: a,
                        backtrace: seq![e],
                    },
                    env[0],
                ),
            },
        },
        ExpV::List(vv) => {
            if vv.len() == 0 {
                SOut::Val(e, env[0])
            } else {
                match s_eval(vv[0], env, fuel) {
                    SOut::Val(first, fr) => {
                        let env1 = env.update(0, fr);
                        match first {
                            ExpV::BuiltIn(op) => match s_builtin(
                                op,
                                vv.subrange(1, vv.len() as int),
                                env1,
                                fuel,
                            ) {
                                SOut::Val(v, fr2) => SOut::Val(v, fr2),
                                SOut::Exn(x, fr2) => SOut::Exn(push_bt(x, e), fr2),
                                SOut::Die(f) => SOut::Die(f),
                            },
                            ExpV::Function(fv) => match s_call_function(
                                fv,
                                vv.subrange(1, vv.len() as int),
                                env1,
                                fuel,
                            ) {
                                SOut::Val(v, fr2) => SOut::Val(v, fr2),
                                SOut::Exn(x, fr2) => SOut::Exn(push_bt(x, e), fr2),
                                SOut::Die(f) => SOut::Die(f),
                            },
                            _ => SOut::Exn(
                                ExceptionV {
                                    etype: ExceptionType::UncallableCalled,
                                    message: uncallable_message(first),
                                    backtrace: seq![e],
                                },
                                fr,
                            ),
                        }
                    },
                    SOut::Exn(x, fr) => SOut::Exn(push_bt(x, e), fr),
                    SOut::Die(f) => SOut::Die(f),
                }
            }
        },
        _ => SOut::Val(e, env[0]),
    }
}

/// Dispatches one builtin on its unevaluated arguments.
pub open spec fn s_builtin(op: BuiltIn, args: Seq<ExpV>, env: Seq<FrameV>, fuel: nat) -> SOut
    decreases fuel, args, 2int,
{
    match op {
        BuiltIn::Quote => {
            if args.len() == 0 {
                SOut::Die(Fatal::MissingArgument)
            } else {
                SOut::Val(args[0], env[0])
            }
        },
        BuiltIn::Atom => {
            if args.len() == 0 {
                SOut::Die(Fatal::MissingArgument)
            } else {
                match s_eval(args[0], env, fuel) {
                    SOut::Val(v, fr) => SOut::Val(ExpV::Bool(v is Atom), fr),
                    SOut::Exn(x, fr) => SOut::Exn(x, fr),
                    SOut::Die(f) => SOut::Die(f),
                }
            }
        },
        BuiltIn::Eq => {
            if args.len() < 2 {
                SOut::Val(ExpV::Bool(true), env[0])
            } else {
                match s_eval(args[0], env, fuel) {
                    SOut::Val(first, fr) => s_eq_rest(
                        first,
                        args.subrange(1, args.len() as int),
                        env.update(0, fr),
                        fuel,
                    ),
                    SOut::Exn(x, fr) => SOut::Exn(x, fr),
                    SOut::Die(f) => SOut::Die(f),
                }
            }
        },
        BuiltIn::Car => {
            if args.len() == 0 {
                SOut::Die(Fatal::MissingArgument)
            } else {
                match s_eval(args[0], env, fuel) {
                    SOut::Val(ExpV::List(items), fr) => {
                        if items.len() > 0 {
                            SOut::Val(items[0], fr)
                        } else {
                            SOut::Val(ExpV::List(Seq::empty()), fr)
                        }
                    },
                    SOut::Val(_, fr) => SOut::Die(Fatal::TypeMismatch),
                    SOut::Exn(x, fr) => SOut::Exn(x, fr),
                    SOut::Die(f) => SOut::Die(f),
                }
            }
        },
        BuiltIn::Cdr => {
            if args.len() == 0 {
                SOut::Die(Fatal::MissingArgument)
            } else {
                match s_eval(args[0], env, fuel) {
                    SOut::Val(ExpV::List(items), fr) => {
                        if items.len() > 1 {
                            SOut::Val(ExpV::List(items.subrange(1, items.len() as int)), fr)
                        } else {
                            SOut::Val(ExpV::List(Seq::empty()), fr)
                        }
                    },
                    SOut::Val(_, fr) => SOut::Die(Fatal::TypeMismatch),
                    SOut::Exn(x, fr) => SOut::Exn(x, fr),
                    SOut::Die(f) => SOut::Die(f),
                }
            }
        },
        BuiltIn::Cons => {
            if args.len() == 0 {
                SOut::Die(Fatal::MissingArgument)
            } else {
                match s_eval(args[0], env, fuel) {
                    SOut::Val(head, fr) => {
                        if args.len() < 2 {
                            SOut::Die(Fatal::MissingArgument)
                        } else {
                            match s_eval(args[1], env.update(0, fr), fuel) {
                                SOut::Val(ExpV::List(items), fr2) => SOut::Val(
                                    ExpV::List(seq![head] + items),
                                    fr2,
                                ),
                                SOut::Val(_, fr2) => SOut::Die(Fatal::TypeMismatch),
                                SOut::Exn(x, fr2) => SOut::Exn(x, fr2),
                                SOut::Die(f) => SOut::Die(f),
                            }
                        }
                    },
                    SOut::Exn(x, fr) => SOut::Exn(x, fr),
                    SOut::Die(f) => SOut::Die(f),
                }
            }
        },
        BuiltIn::Cond => s_cond(args, env, fuel),
        BuiltIn::Lambda => {
            if args.len() == 0 {
                SOut::Die(Fatal::MissingArgument)
            } else {
                match args[0] {
                    ExpV::List(params) => SOut::Val(
                        ExpV::Function(
                            FunctionV {
                                arg_names: params,
                                body_exps: args.subrange(1, args.len() as int),
                                self_name: None,
                            },
                        ),
                        env[0],
                    ),
                    _ => SOut::Die(Fatal::BadSpecialForm),
                }
            }
        },
        BuiltIn::Def => {
            if args.len() == 0 {
                SOut::Die(Fatal::MissingArgument)
            } else {
                match args[0] {
                    ExpV::Atom(name) => {
                        if args.len() < 2 {
                            SOut::Die(Fatal::MissingArgument)
                        } else {
                            match s_eval(args[1], env, fuel) {
                                SOut::Val(v, fr) => SOut::Val(
                                    ExpV::Bool(true),
                                    fr.push((name, v)),
                                ),
                                SOut::Exn(x, fr) => SOut::Exn(x, fr),
                                SOut::Die(f) => SOut::Die(f),
                            }
                        }
                    },
                    _ => SOut::Die(Fatal::BadSpecialForm),
                }
            }
        },
        BuiltIn::Label => {
            if args.len() == 0 {
                SOut::Die(Fatal::MissingArgument)
            } else {
                match args[0] {
                    ExpV::Atom(name) => {
                        if args.len() < 2 {
                            SOut::Die(Fatal::MissingArgument)
                        } else {
                            match s_eval(args[1], env, fuel) {
                                SOut::Val(ExpV::Function(f), fr) => SOut::Val(
                                    ExpV::Function(
                                        FunctionV {
                                            arg_names: f.arg_names,
                                            body_exps: f.body_exps,
                                            self_name: Some(name),
                                        },
                                    ),
                                    fr,
                                ),
                                SOut::Val(_, fr) => SOut::Die(Fatal::BadSpecialForm),
                                SOut::Exn(x, fr) => SOut::Exn(x, fr),
                                SOut::Die(f) => SOut::Die(f),
                            }
                        }
                    },
                    _ => SOut::Die(Fatal::BadSpecialForm),
                }
            }
        },
        BuiltIn::Inspect => s_do(args, env, fuel, ExpV::Nil),
        BuiltIn::Add => s_sum(args, env, fuel, 0),
        BuiltIn::Subtract => {
            if args.len() == 0 {
                SOut::Die(Fatal::MissingArgument)
            } else {
                match s_eval(args[0], env, fuel) {
                    SOut::Val(ExpV::Int(i), fr) => s_sub_rest(
                        args.subrange(1, args.len() as int),
                        env.update(0, fr),
                        fuel,
                        i,
                    ),
                    SOut::Val(_, fr) => SOut::Die(Fatal::TypeMismatch),
                    SOut::Exn(x, fr) => SOut::Exn(x, fr),
                    SOut::Die(f) => SOut::Die(f),
                }
            }
        },
        BuiltIn::Defun => {
            if args.len() == 0 {
                SOut::Die(Fatal::MissingArgument)
            } else {
                match args[0] {
                    ExpV::Atom(name) => {
                        if args.len() < 2 {
                            SOut::Die(Fatal::MissingArgument)
                        } else {
                            match args[1] {
                                ExpV::List(params) => {
                                    let f = FunctionV {
                                        arg_names: params,
                                        body_exps: args.subrange(2, args.len() as int),
                                        self_name: Some(name),
                                    };
                                    SOut::Val(
                                        ExpV::Function(f),
                                        env[0].push((name, ExpV::Function(f))),
                                    )
                                },
                                _ => SOut::Exn(
                                    exn(
                                        ExceptionType::ArgumentError,
                                        "Second arg to defun should be a list of atoms"@,
                                    ),
                                    env[0],
                                ),
                            }
                        }
                    },
                    _ => SOut::Exn(
                        exn(ExceptionType::ArgumentError, "First arg to defun should be an atom"@),
                        env[0],
                    ),
                }
            }
        },
        BuiltIn::Assert => {
            if args.len() == 0 {
                SOut::Die(Fatal::MissingArgument)
            } else {
                match s_eval(args[0], env, fuel) {
                    SOut::Val(ExpV::Bool(true), fr) => SOut::Val(ExpV::Bool(true), fr),
                    SOut::Val(_, fr) => SOut::Exn(
                        exn(ExceptionType::AssertionFailed, "Assertion failed"@),
                        fr,
                    ),
                    SOut::Exn(x, fr) => SOut::Exn(x, fr),
                    SOut::Die(f) => SOut::Die(f),
                }
            }
        },
        BuiltIn::Do => s_do(args, env, fuel, ExpV::Bool(true)),
        BuiltIn::IsInt => {
            if args.len() == 0 {
                SOut::Die(Fatal::MissingArgument)
            } else {
                match s_eval(args[0], env, fuel) {
                    SOut::Val(v, fr) => SOut::Val(ExpV::Bool(v is Int), fr),
                    SOut::Exn(x, fr) => SOut::Exn(x, fr),
                    SOut::Die(f) => SOut::Die(f),
                }
            }
        },
        BuiltIn::IsBool => {
            if args.len() == 0 {
                SOut::Die(Fatal::MissingArgument)
            } else {
                match s_eval(args[0], env, fuel) {
                    SOut::Val(v, fr) => SOut::Val(ExpV::Bool(v is Bool), fr),
                    SOut::Exn(x, fr) => SOut::Exn(x, fr),
                    SOut::Die(f) => SOut::Die(f),
                }
            }
        },
        BuiltIn::IsNil => {
            if args.len() == 0 {
                SOut::Die(Fatal::MissingArgument)
            } else {
                match s_eval(args[0], env, fuel) {
                    SOut::Val(v, fr) => SOut::Val(ExpV::Bool(v == ExpV::Nil), fr),
                    SOut::Exn(x, fr) => SOut::Exn(x, fr),
                    SOut::Die(f) => SOut::Die(f),
                }
            }
        },
    }
}

/// `eq` over the remaining arguments: true unless one evaluates to a
/// value other than `first` (evaluation stops at the first mismatch).
pub open spec fn s_eq_rest(first: ExpV, args: Seq<ExpV>, env: Seq<FrameV>, fuel: nat) -> SOut
    decreases fuel, args, 1int,
{
    if args.len() == 0 {
        SOut::Val(ExpV::Bool(true), env[0])
    } else {
        match s_eval(args[0], env, fuel) {
            SOut::Val(v, fr) => {
                if v == first {
                    s_eq_rest(first, args.subrange(1, args.len() as int), env.update(0, fr), fuel)
                } else {
                    SOut::Val(ExpV::Bool(false), fr)
                }
            },
            SOut::Exn(x, fr) => SOut::Exn(x, fr),
            SOut::Die(f) => SOut::Die(f),
        }
    }
}

/// `cond` over (test, value) pairs: the value of the first test that
/// yields exactly `true`; an empty list when none does.  A trailing
/// unpaired argument is ignored.
pub open spec fn s_cond(args: Seq<ExpV>, env: Seq<FrameV>, fuel: nat) -> SOut
    decreases fuel, args, 1int,
{
    if args.len() < 2 {
        SOut::Val(ExpV::List(Seq::empty()), env[0])
    } else {
        match s_eval(args[0], env, fuel) {
            SOut::Val(v, fr) => {
                if v == ExpV::Bool(true) {
                    s_eval(args[1], env.update(0, fr), fuel)
                } else {
                    s_cond(args.subrange(2, args.len() as int), env.update(0, fr), fuel)
                }
            },
            SOut::Exn(x, fr) => SOut::Exn(x, fr),
            SOut::Die(f) => SOut::Die(f),
        }
    }
}

/// `do`-style sequencing: evaluates each argument in order and keeps
/// the last value, starting from `last` when there are none.
pub open spec fn s_do(args: Seq<ExpV>, env: Seq<FrameV>, fuel: nat, last: ExpV) -> SOut
    decreases fuel, args, 1int,
{
    if args.len() == 0 {
        SOut::Val(last, env[0])
    } else {
        match s_eval(args[0], env, fuel) {
            SOut::Val(v, fr) => s_do(
                args.subrange(1, args.len() as int),
                env.update(0, fr),
                fuel,
                v,
            ),
            SOut::Exn(x, fr) => SOut::Exn(x, fr),
            SOut::Die(f) => SOut::Die(f),
        }
    }
}

/// `+` over the remaining arguments: every one must evaluate to an
/// integer, and each running total must stay in 32-bit range.
pub open spec fn s_sum(args: Seq<ExpV>, env: Seq<FrameV>, fuel: nat, acc: int) -> SOut
    decreases fuel, args, 1int,
{
    if args.len() == 0 {
        SOut::Val(ExpV::Int(acc), env[0])
    } else {
        match s_eval(args[0], env, fuel) {
            SOut::Val(ExpV::Int(i), fr) => {
                if in_i32(acc + i) {
                    s_sum(args.subrange(1, args.len() as int), env.update(0, fr), fuel, acc + i)
                } else {
                    SOut::Die(Fatal::Overflow)
                }
            },
            SOut::Val(_, fr) => SOut::Die(Fatal::TypeMismatch),
            SOut::Exn(x, fr) => SOut::Exn(x, fr),
            SOut::Die(f) => SOut::Die(f),
        }
    }
}

/// `-` over the arguments after the first: an argument that evaluates
/// to an integer is subtracted; one that evaluates to anything else is
/// silently ignored.
pub open spec fn s_sub_rest(args: Seq<ExpV>, env: Seq<FrameV>, fuel: nat, acc: int) -> SOut
    decreases fuel, args, 1int,
{
    if args.len() == 0 {
        SOut::Val(ExpV::Int(acc), env[0])
    } else {
        match s_eval(args[0], env, fuel) {
            SOut::Val(ExpV::Int(i), fr) => {
                if in_i32(acc - i) {
                    s_sub_rest(
                        args.subrange(1, args.len() as int),
                        env.update(0, fr),
                        fuel,
                        acc - i,
                    )
                } else {
                    SOut::Die(Fatal::Overflow)
                }
            },
            SOut::Val(_, fr) => s_sub_rest(
                args.subrange(1, args.len() as int),
                env.update(0, fr),
                fuel,
                acc,
            ),
            SOut::Exn(x, fr) => SOut::Exn(x, fr),
            SOut::Die(f) => SOut::Die(f),
        }
    }
}

/// Evaluates an argument list left to right in the caller's scope.
pub open spec fn s_eval_args(args: Seq<ExpV>, env: Seq<FrameV>, fuel: nat) -> SArgs
    decreases fuel, args, 1int,
{
    if args.len() == 0 {
        SArgs::Vals(Seq::empty(), env[0])
    } else {
        match s_eval(args[0], env, fuel) {
            SOut::Val(v, fr) => match s_eval_args(
                args.subrange(1, args.len() as int),
                env.update(0, fr),
                fuel,
            ) {
                SArgs::Vals(vs, fr2) => SArgs::Vals(seq![v] + vs, fr2),
                SArgs::Exn(x, fr2) => SArgs::Exn(x, fr2),
                SArgs::Die(f) => SArgs::Die(f),
            },
            SOut::Exn(x, fr) => SArgs::Exn(x, fr),
            SOut::Die(f) => SArgs::Die(f),
        }
    }
}

/// Evaluates a non-empty function body in order; the last value stands.
pub open spec fn s_body(body: Seq<ExpV>, env: Seq<FrameV>, fuel: nat) -> SOut
    decreases fuel, body, 1int,
{
    if body.len() == 0 {
        SOut::Die(Fatal::EmptyBody)
    } else if body.len() == 1 {
        s_eval(body[0], env, fuel)
    } else {
        match s_eval(body[0], env, fuel) {
            SOut::Val(_, fr) => s_body(
                body.subrange(1, body.len() as int),
                env.update(0, fr),
                fuel,
            ),
            SOut::Exn(x, fr) => SOut::Exn(x, fr),
            SOut::Die(f) => SOut::Die(f),
        }
    }
}

/// Calls a user-defined function: arity must match; the arguments are
/// evaluated in the caller's scope; a fresh scope chained to the
/// caller's binds each parameter and, if set, the self-reference name;
/// the body then runs there with one budget step consumed.  The
/// caller's frame as it stood after argument evaluation is what
/// remains: the call scope is discarded.
pub open spec fn s_call_function(f: FunctionV, args: Seq<ExpV>, env: Seq<FrameV>, fuel: nat) -> SOut
    decreases fuel, args, 2int,
{
    if args.len() != f.arg_names.len() {
        SOut::Die(Fatal::WrongArgCount)
    } else {
        match s_eval_args(args, env, fuel) {
            SArgs::Vals(vals, fr) => {
                if !all_atoms(f.arg_names) {
                    SOut::Die(Fatal::BadSpecialForm)
                } else if fuel == 0 {
                    SOut::Die(Fatal::DepthLimit)
                } else if f.body_exps.len() == 0 {
                    SOut::Die(Fatal::EmptyBody)
                } else {
                    let bound = bind_params(f.arg_names, vals);
                    let child = match f.self_name {
                        Some(n) => bound.push((n, ExpV::Function(f))),
                        None => bound,
                    };
                    match s_body(
                        f.body_exps,
                        seq![child] + env.update(0, fr),
                        (fuel - 1) as nat,
                    ) {
                        SOut::Val(v, _) => SOut::Val(v, fr),
                        SOut::Exn(x, _) => SOut::Exn(x, fr),
                        SOut::Die(fl) => SOut::Die(fl),
                    }
                }
            },
            SArgs::Exn(x, fr) => SOut::Exn(x, fr),
            SArgs::Die(fl) => SOut::Die(fl),
        }
    }
}

/// Evaluates a program: each top-level form in order against the same
/// scope, keeping the last value (`true` for an empty program) or
/// stopping at the first failure.
pub open spec fn s_eval_all(exps: Seq<ExpV>, env: Seq<FrameV>, fuel: nat) -> SOut
    decreases fuel, exps, 1int,
{
    if exps.len() == 0 {
        SOut::Val(ExpV::Bool(true), env[0])
    } else if exps.len() == 1 {
        s_eval(exps[0], env, fuel)
    } else {
        match s_eval(exps[0], env, fuel) {
            SOut::Val(_, fr) => s_eval_all(
                exps.subrange(1, exps.len() as int),
                env.update(0, fr),
                fuel,
            ),
            SOut::Exn(x, fr) => SOut::Exn(x, fr),
            SOut::Die(f) => SOut::Die(f),
        }
    }
}

/// The size of an expression's syntax tree; the termination measure of
/// the executable evaluator, which works on copies whose mathematical
/// values — not whose storage — match the syntax being consumed.
pub open spec fn height(e: ExpV) -> nat
    decreases e,
{
    match e {
        ExpV::List(v) => 1 + hsum(v),
        ExpV::Function(f) => 1 + hsum(f.arg_names) + hsum(f.body_exps),
        ExpV::Exception(x) => 1 + hsum(x.backtrace),
        _ => 1,
    }
}

/// The summed heights of a sequence of expressions.
pub open spec fn hsum(s: Seq<ExpV>) -> nat
    decreases s,
{
    if s.len() == 0 {
        0
    } else {
        hsum(s.subrange(0, s.len() - 1)) + height(s[s.len() - 1])
    }
}

/// Every expression has height at least one.
pub proof fn lemma_height_pos(e: ExpV)
    ensures
        height(e) >= 1,
{
    match e {
        ExpV::List(v) => {},
        ExpV::Function(f) => {},
        ExpV::Exception(x) => {},
        _ => {},
    }
}

/// Heights sum over concatenation.
pub proof fn lemma_hsum_concat(s1: Seq<ExpV>, s2: Seq<ExpV>)
    ensures
        hsum(s1 + s2) == hsum(s1) + hsum(s2),
    decreases s2,
{
    if s2.len() == 0 {
        assert(s1 + s2 =~= s1);
    } else {
        let whole = s1 + s2;
        assert(whole.subrange(0, whole.len() - 1) =~= s1 + s2.subrange(0, s2.len() - 1));
        assert(whole[whole.len() - 1] == s2[s2.len() - 1]);
        lemma_hsum_concat(s1, s2.subrange(0, s2.len() - 1));
    }
}

/// Splitting off the first remaining element splits the height sum, by
/// at least one.
pub proof fn lemma_hsum_split(s: Seq<ExpV>, k: int)
    requires
        0 <= k < s.len(),
    ensures
        hsum(s.subrange(k, s.len() as int)) == height(s[k]) + hsum(
            s.subrange(k + 1, s.len() as int),
        ),
        hsum(s.subrange(k, s.len() as int)) > hsum(s.subrange(k + 1, s.len() as int)),
        height(s[k]) <= hsum(s.subrange(k, s.len() as int)),
    decreases s.len() - k,
{
    let front = seq![s[k]];
    let rest = s.subrange(k + 1, s.len() as int);
    assert(s.subrange(k, s.len() as int) =~= front + rest);
    lemma_hsum_concat(front, rest);
    assert(front.subrange(0, 0) =~= Seq::<ExpV>::empty());
    assert(hsum(Seq::<ExpV>::empty()) == 0);
    assert(hsum(front) == height(s[k]));
    lemma_height_pos(s[k]);
}

/// Each element's height is bounded by the sum over the sequence.
pub proof fn lemma_hsum_elem(s: Seq<ExpV>, i: int)
    requires
        0 <= i < s.len(),
    ensures
        height(s[i]) <= hsum(s),
    decreases s.len() - i,
{
    lemma_hsum_split(s, i);
    lemma_hsum_sub_prefix(s, i);
}

/// A suffix's height sum is bounded by the whole sum.
pub proof fn lemma_hsum_sub_prefix(s: Seq<ExpV>, k: int)
    requires
        0 <= k <= s.len(),
    ensures
        hsum(s.subrange(k, s.len() as int)) <= hsum(s),
    decreases k,
{
    if k == 0 {
        assert(s.subrange(0, s.len() as int) =~= s);
    } else {
        lemma_hsum_sub_prefix(s, k - 1);
        lemma_hsum_split(s, k - 1);
    }
}


/// Successful argument evaluation yields exactly one value per argument.
pub proof fn lemma_eval_args_len(args: Seq<ExpV>, env: Seq<FrameV>, fuel: nat)
    ensures
        match s_eval_args(args, env, fuel) {
            SArgs::Vals(vs, fr) => vs.len() == args.len(),
            _ => true,
        },
    decreases fuel, args, 3int,
{
    if args.len() > 0 {
        match s_eval(args[0], env, fuel) {
            SOut::Val(v, fr) => {
                lemma_eval_args_len(args.subrange(1, args.len() as int), env.update(0, fr), fuel);
            },
            _ => {},
        }
    }
}

/// No test of a `cond` matches: each test in turn evaluates to a value
/// other than `true`, through the scope as it then stands.
pub open spec fn cond_no_match(args: Seq<ExpV>, env: Seq<FrameV>, fuel: nat) -> bool
    decreases args.len(),
{
    args.len() < 2 || (match s_eval(args[0], env, fuel) {
        SOut::Val(v, fr) => v != ExpV::Bool(true) && cond_no_match(
            args.subrange(2, args.len() as int),
            env.update(0, fr),
            fuel,
        ),
        _ => false,
    })
}

/// `cond` with no matching test returns the empty list.
pub proof fn lemma_cond_no_match(args: Seq<ExpV>, env: Seq<FrameV>, fuel: nat)
    requires
        cond_no_match(args, env, fuel),
    ensures
        s_cond(args, env, fuel) is Val,
        s_cond(args, env, fuel)->Val_0 == ExpV::List(Seq::<ExpV>::empty()),
    decreases args.len(),
{
    if args.len() >= 2 {
        match s_eval(args[0], env, fuel) {
            SOut::Val(v, fr) => {
                lemma_cond_no_match(args.subrange(2, args.len() as int), env.update(0, fr), fuel);
            },
            _ => {},
        }
    }
}

} // verus!
