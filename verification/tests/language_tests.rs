use risp::environment::Env;
use risp::evaluator::{eval, eval_all, EvalError};
use risp::expressions::{Exception, ExceptionType, Exp};
use risp::loader::eval_code;
use risp::semantics::Fatal;
use risp::to_string::{display_result, int_to_string, to_string};

const FUEL: u64 = 1000;

fn parse(code: &str) -> Exp {
    let mut pos: usize = 0;
    risp::parser::parse_expression(code, &mut pos).unwrap()
}

fn as_exc(r: Result<Exp, EvalError>) -> Result<Exp, Exception> {
    match r {
        Ok(e) => Ok(e),
        Err(EvalError::Raise(x)) => Err(x),
        Err(EvalError::Fatal(f)) => panic!("fatal evaluation error: {:?}", f),
    }
}

fn run(code: &str) -> String {
    let mut env = Env::new();
    display_result(&as_exc(eval(&parse(code), &mut env, FUEL)))
}

fn run_all(code: &str) -> String {
    let exps = risp::parser::parse(code);
    let mut env = Env::new();
    display_result(&as_exc(eval_all(&exps, &mut env, FUEL)))
}

fn fatal_of(code: &str) -> Fatal {
    let mut env = Env::new();
    match eval(&parse(code), &mut env, FUEL) {
        Err(EvalError::Fatal(f)) => f,
        other => panic!("expected a fatal outcome, got {:?}", other),
    }
}

#[test]
fn parser_round_trip_scenario() {
    // Rendering, reparsing and rendering again is the identity on the
    // rendered text, for symbol/list trees.
    let t = parse("(alpha (beta () gamma) delta)");
    let text = to_string(&t);
    let t2 = parse(&text);
    assert_eq!(text, to_string(&t2));
}

#[test]
fn eq_structural_scenarios() {
    assert_eq!("true", run("(eq '(a (b) c) '(a (b) c))"));
    assert_eq!("false", run("(eq '(a (b) c) '(a (b) d))"));
}

#[test]
fn car_cdr_empty_list_do_not_fail() {
    assert_eq!("()", run("(car '())"));
    assert_eq!("()", run("(cdr '())"));
}

#[test]
fn cond_no_match_returns_empty_list() {
    assert_eq!("()", run("(cond (eq 1 2) 'a (eq 3 4) 'b)"));
    assert_eq!("()", run("(cond)"));
}

#[test]
fn environment_shadowing() {
    let mut parent = Env::new();
    parent.set("x".to_string(), Exp::Int(1));
    {
        let mut child = Env::new_with_parent(&parent);
        child.set("x".to_string(), Exp::Int(2));
        assert_eq!(Some(Exp::Int(2)), child.get("x".to_string()));
    }
    // Dropping the child leaves the parent's binding untouched.
    assert_eq!(Some(Exp::Int(1)), parent.get("x".to_string()));
}

#[test]
fn label_self_recursion_terminates() {
    // A self-recursive function built with `label`: sums 1..n.
    assert_eq!(
        "15",
        run("( (label tri (lambda (n) (cond (eq n 0) 0 true (+ n (tri (- n 1)))))) 5)")
    );
}

#[test]
fn defun_self_recursion() {
    assert_eq!(
        "10",
        run_all("(defun tri (n) (cond (eq n 0) 0 true (+ n (tri (- n 1))))) (tri 4)")
    );
}

#[test]
fn eval_code_runs_whole_programs() {
    let mut env = Env::new();
    let r = as_exc(eval_code(
        &"(def foo 123) (def bar 999) (cons foo (cons bar '()))".to_owned(),
        &mut env,
        FUEL,
    ));
    assert_eq!("(123 999)", display_result(&r));
}

#[test]
fn assertion_failure_is_recoverable() {
    let mut env = Env::new();
    match eval(&parse("(assert! false)"), &mut env, FUEL) {
        Err(EvalError::Raise(x)) => {
            assert_eq!(ExceptionType::AssertionFailed, x.etype);
            assert_eq!("Assertion failed", x.message);
        },
        other => panic!("expected an assertion failure, got {:?}", other),
    }
}

#[test]
fn defun_argument_errors() {
    let mut env = Env::new();
    match eval(&parse("(defun 5 (x) x)"), &mut env, FUEL) {
        Err(EvalError::Raise(x)) => {
            assert_eq!(ExceptionType::ArgumentError, x.etype);
            assert_eq!("First arg to defun should be an atom", x.message);
        },
        other => panic!("expected an argument error, got {:?}", other),
    }
    match eval(&parse("(defun f x x)"), &mut env, FUEL) {
        Err(EvalError::Raise(x)) => {
            assert_eq!(ExceptionType::ArgumentError, x.etype);
            assert_eq!("Second arg to defun should be a list of atoms", x.message);
        },
        other => panic!("expected an argument error, got {:?}", other),
    }
}

#[test]
fn fatal_conditions() {
    assert_eq!(Fatal::TypeMismatch, fatal_of("(car 5)"));
    assert_eq!(Fatal::TypeMismatch, fatal_of("(cons 1 2)"));
    assert_eq!(Fatal::TypeMismatch, fatal_of("(+ 1 'a)"));
    assert_eq!(Fatal::WrongArgCount, fatal_of("( (lambda (x) x) 1 2)"));
    assert_eq!(Fatal::BadSpecialForm, fatal_of("(def 5 1)"));
    assert_eq!(Fatal::Overflow, fatal_of("(+ 2147483647 1)"));
}

#[test]
fn depth_limit_is_fatal() {
    let mut env = Env::new();
    let exp = parse("( (label f (lambda (x) (f x))) 1)");
    match eval(&exp, &mut env, 50) {
        Err(EvalError::Fatal(Fatal::DepthLimit)) => {},
        other => panic!("expected the depth limit, got {:?}", other),
    }
}

#[test]
fn integer_rendering() {
    assert_eq!("0", int_to_string(0));
    assert_eq!("-5", int_to_string(-5));
    assert_eq!("2147483647", int_to_string(i32::MAX));
    assert_eq!("-2147483648", int_to_string(i32::MIN));
    assert_eq!("-12", to_string(&Exp::Int(-12)));
}

#[test]
fn integer_literal_classification() {
    // A digit run with other characters after it is a symbol, not an
    // integer; leading zeros still read as an integer.
    assert_eq!(Exp::Atom("123abc".to_owned()), parse("123abc"));
    assert_eq!(Exp::Int(7), parse("007"));
    assert_eq!(Exp::Atom("-12".to_owned()), parse("-12"));
}

#[test]
fn integer_literal_out_of_range() {
    let mut pos: usize = 0;
    let err = risp::parser::parse_expression("99999999999", &mut pos).unwrap_err();
    assert_eq!("Integer out of range", err.message());
}

#[test]
fn parse_collects_until_exhausted_or_failure() {
    let exps = risp::parser::parse(" a (b c)  12 ");
    assert_eq!(3, exps.len());
    assert_eq!(Exp::Atom("a".to_owned()), exps[0]);
    assert_eq!(Exp::Int(12), exps[2]);
    // A malformed tail is dropped.
    let exps = risp::parser::parse("a (b");
    assert_eq!(1, exps.len());
}

#[test]
fn lenient_list_bodies() {
    // Malformed content after a valid prefix inside a list is dropped.
    let mut pos: usize = 0;
    let e = risp::parser::parse_expression("(a (b)", &mut pos);
    assert_eq!("Expected )", e.unwrap_err().message());
}

#[test]
fn quote_abbreviation() {
    assert_eq!(
        Exp::List(vec![Exp::Atom("quote".to_owned()), Exp::Atom("x".to_owned())]),
        parse("'x")
    );
}

#[test]
fn uncallable_backtrace_render() {
    let mut env = Env::new();
    let r = as_exc(eval_all(&risp::parser::parse("(1 2 3)"), &mut env, FUEL));
    let text = display_result(&r);
    assert!(text.starts_with("Exception! -- UncallableCalled: 1\n"));
    assert!(text.contains("  (1 2 3)\n"));
}

#[test]
fn prn_returns_last_value() {
    assert_eq!("2", run("(prn 1 2)"));
    assert_eq!("nil", run("(prn)"));
}

#[test]
fn empty_list_evaluates_to_itself() {
    assert_eq!("()", run("()"));
}

#[test]
fn backtrace_lines_truncate_at_thirty_characters() {
    let mut env = Env::new();
    let code = "(unbound_symbol_with_a_very_long_name 1 2 3)";
    let r = as_exc(eval_all(&risp::parser::parse(code), &mut env, FUEL));
    let text = display_result(&r);
    let frame_line: Vec<&str> = text.lines().collect();
    // kind and message first, then the trail, each line cut to 30 chars.
    assert_eq!(
        "Exception! -- UnknownSymbol: unbound_symbol_with_a_very_long_name",
        frame_line[0]
    );
    assert_eq!("  unbound_symbol_with_a_very_lon", frame_line[1]);
    assert_eq!("  (unbound_symbol_with_a_very_lo", frame_line[2]);
}

#[test]
fn subtraction_ignores_non_integers_after_the_first() {
    assert_eq!("10", run("(- 11 'a 1)"));
}
