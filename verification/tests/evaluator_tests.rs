use risp::environment::Env;
use risp::evaluator::{eval_all, EvalError};
use risp::expressions::{Exception, ExceptionType, Exp};
use risp::to_string::display_result;

const FUEL: u64 = 1000;

fn as_exc(r: Result<Exp, EvalError>) -> Result<Exp, Exception> {
    match r {
        Ok(e) => Ok(e),
        Err(EvalError::Raise(x)) => Err(x),
        Err(EvalError::Fatal(f)) => panic!("fatal evaluation error: {:?}", f),
    }
}

fn run_all(code: &str) -> String {
    let exps = risp::parser::parse(code);
    let mut env = Env::new();
    display_result(&as_exc(eval_all(&exps, &mut env, FUEL)))
}

fn result_of(code: &str) -> Result<Exp, Exception> {
    let mut env = Env::new();
    as_exc(eval_all(&risp::parser::parse(code), &mut env, FUEL))
}

#[test]
fn eval_many() {
    assert_eq!("123", run_all("(def foo 123) foo"));
    assert_eq!(
        "(123 999)",
        run_all("(def foo 123) (def bar 999) (cons foo (cons bar '()))")
    );
}

#[test]
fn exception_uncallable_things() {
    let exc = result_of("(1 2 3)").unwrap_err();
    assert_eq!("1", exc.message);
    assert_eq!(ExceptionType::UncallableCalled, exc.etype);
}

#[test]
fn exception_unknown_symbol() {
    let exc = result_of("(a 2 3)").unwrap_err();
    assert_eq!("a", exc.message);
    assert_eq!(ExceptionType::UnknownSymbol, exc.etype);
}

#[test]
fn exception_deep() {
    let exc = result_of("(cons 10 (10 2 3))").unwrap_err();
    assert_eq!("10", exc.message);
    assert_eq!(ExceptionType::UncallableCalled, exc.etype);
    // The trail holds the inner form first, then the outer form.
    let rendered: Vec<String> = exc
        .backtrace
        .iter()
        .map(|e| risp::to_string::to_string(e))
        .collect();
    assert_eq!(vec!["(10 2 3)".to_owned(), "(cons 10 (10 2 3))".to_owned()], rendered);
}
