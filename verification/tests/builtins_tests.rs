use risp::environment::Env;
use risp::evaluator::{eval, eval_all, EvalError};
use risp::expressions::{Exception, Exp};
use risp::to_string::display_result;

const FUEL: u64 = 1000;

fn parse(code: &str) -> Exp {
    let mut pos: usize = 0;
    risp::parser::parse_expression(code, &mut pos).unwrap()
}

fn as_exc(r: Result<Exp, EvalError>) -> Result<Exp, Exception> {
    match r {
        Ok(e) => Ok(e),
        Err(EvalError::Raise(x)) => Err(x),
        Err(EvalError::Fatal(f)) => panic!("fatal evaluation error: {:?}", f),
    }
}

fn run(code: &str) -> String {
    let mut env = Env::new();
    display_result(&as_exc(eval(&parse(code), &mut env, FUEL)))
}

fn run_all(code: &str) -> String {
    let exps = risp::parser::parse(code);
    let mut env = Env::new();
    display_result(&as_exc(eval_all(&exps, &mut env, FUEL)))
}

fn eval_new(code: &str) -> Result<Exp, Exception> {
    let mut env = Env::new();
    as_exc(eval(&parse(code), &mut env, FUEL))
}

#[test]
fn builtin_int() {
    assert_eq!("true", run_all("(int? 123)"));
    assert_eq!("false", run_all("(int? '())"));
}

#[test]
fn builtin_bool() {
    assert_eq!("true", run_all("(bool? true)"));
    assert_eq!("false", run_all("(bool? 123)"));
}

#[test]
fn builtin_nil() {
    assert_eq!("true", run_all("(nil? nil)"));
    assert_eq!("false", run_all("(nil? false)"));
}

#[test]
fn builtin_do() {
    assert_eq!("123", run_all("(do (def foo 123) foo)"));
}

#[test]
fn builtin_assert() {
    assert_eq!("true", run_all("(assert! true)"));
}

#[test]
fn builtin_defun() {
    assert_eq!("404", run_all("(defun add4 (x) (+ x 4)) (add4 400)"));
}

#[test]
fn eval_addition_subtraction() {
    assert_eq!("5", run("(+ 1 4)"));
    assert_eq!("7", run("(- 11 4)"));
    assert_eq!("112", run("(+ 1 4 7 100)"));
    assert_eq!("-3", run("(- 11 4 10)"));
}

#[test]
fn eval_lambda() {
    assert_eq!("(1 10)", run("( (lambda () (cons 1 '(10))))"));
}

#[test]
fn eval_lambda_with_args() {
    assert_eq!("(2 1)", run("( (lambda (x) (cons x '(1))) 2)"));
}

#[test]
fn eval_lambda_with_multiple_args() {
    assert_eq!(
        "(true 101 hi)",
        run("( (lambda (a b c) (cons (eq a b) (cons c '(hi)))) true true 101)")
    );
    assert_eq!("(z b c)", run("( (lambda (x y) (cons x (cdr y))) 'z '(a b c))"));
}

#[test]
fn eval_lambda_with_lambda_parameter() {
    assert_eq!("(a b c)", run("( (lambda (f) (f '(b c))) (lambda (x) (cons 'a x)))"));
}

#[test]
fn eval_cond() {
    assert_eq!("b", run("(cond (eq true false) 'a (eq false false) 'b)"));
    assert_eq!("c", run("(cond (eq true false) 'a (eq false true) 'b true 'c)"));
}

#[test]
fn eval_cons() {
    assert_eq!("(a b c)", run("(cons 'a '(b c))"));
}

#[test]
fn eval_car() {
    assert_eq!("a", run("(car '(a b c))"));
    assert_eq!("1", run("(car '(1 2 3))"));
}

#[test]
fn eval_car_empty_list() {
    assert_eq!("()", run("(car '())"));
}

#[test]
fn eval_cdr() {
    assert_eq!("(b c)", run("(cdr '(a b c))"));
    assert_eq!("()", run("(cdr '())"));
}

#[test]
fn eval_eq() {
    assert_eq!(Ok(Exp::Bool(true)), eval_new("(eq 'abc 'abc)"));
    assert_eq!(Ok(Exp::Bool(false)), eval_new("(eq 'abc 'def)"));
    assert_eq!(Ok(Exp::Bool(false)), eval_new("(eq '(a b c) 'def)"));
    assert_eq!(Ok(Exp::Bool(true)), eval_new("(eq '() '())"));
    assert_eq!(Ok(Exp::Bool(true)), eval_new("(eq true true)"));
    assert_eq!(Ok(Exp::Bool(true)), eval_new("(eq false false)"));
    assert_eq!(Ok(Exp::Bool(false)), eval_new("(eq true false)"));
    assert_eq!(Ok(Exp::Bool(true)), eval_new("(eq 12 12)"));
    // A signed token is a symbol, not an integer literal; unbound, it
    // raises rather than comparing unequal.
    assert!(matches!(
        eval_new("(eq 12 -12)"),
        Err(Exception { etype: risp::expressions::ExceptionType::UnknownSymbol, .. })
    ));
    assert_eq!(Ok(Exp::Bool(true)), eval_new("(eq 12)"));
    assert_eq!(Ok(Exp::Bool(true)), eval_new("(eq)"));
    assert_eq!(Ok(Exp::Bool(true)), eval_new("(eq 12 12 12)"));
    assert_eq!(Ok(Exp::Bool(false)), eval_new("(eq 12 12 1)"));
}

#[test]
fn eval_eq_works_with_nested_lists() {
    assert_eq!(Ok(Exp::Bool(true)), eval_new("(eq '(a b c) '(a b c))"));
    assert_eq!(Ok(Exp::Bool(false)), eval_new("(eq '(a b c) '(a b d))"));
    assert_eq!(Ok(Exp::Bool(true)), eval_new("(eq '(a '(1 2 3) c) '(a '(1 2 3) c))"));
    assert_eq!(Ok(Exp::Bool(false)), eval_new("(eq '(a '(1 2 3) c) '(a '(1 2 4) c))"));
}

#[test]
fn eval_atom() {
    assert_eq!(Ok(Exp::Bool(true)), eval_new("(atom 'abc))"));
    assert_eq!(Ok(Exp::Bool(false)), eval_new("(atom '(a b c))"));
    assert_eq!(Ok(Exp::Bool(false)), eval_new("(atom '()))"));
}

#[test]
fn eval_quote() {
    assert_eq!(Ok(Exp::Int(101)), eval_new("'101"));
    assert_eq!(Ok(Exp::Atom("foo".to_owned())), eval_new("'foo"));
    assert_eq!(
        Ok(Exp::List(vec!(
            Exp::Atom("a".to_owned()),
            Exp::Atom("b".to_owned()),
            Exp::Atom("c".to_owned())
        ))),
        eval_new("'(a b c)")
    );
}
