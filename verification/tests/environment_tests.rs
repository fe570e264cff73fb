use risp::environment::Env;
use risp::evaluator::{eval, EvalError};
use risp::expressions::{Exception, Exp};
use risp::to_string::display_result;

const FUEL: u64 = 1000;

fn parse(code: &str) -> Exp {
    let mut pos: usize = 0;
    risp::parser::parse_expression(code, &mut pos).unwrap()
}

fn as_exc(r: Result<Exp, EvalError>) -> Result<Exp, Exception> {
    match r {
        Ok(e) => Ok(e),
        Err(EvalError::Raise(x)) => Err(x),
        Err(EvalError::Fatal(f)) => panic!("fatal evaluation error: {:?}", f),
    }
}

#[test]
fn test_label() {
    let program = r#"
            (
                (label subst (lambda (x y z)
                               (cond (eq z '()) '()
                                     (atom z)   (cond (eq z y) x
                                                      true     z)
                                     true       (cons (subst x y (car z))
                                                      (subst x y (cdr z))))))
                'm 'b '(a b (a b c) d)
            )
            "#;
    let exps = risp::parser::parse(program);
    let mut env = Env::new();
    assert_eq!(
        "(a m (a m c) d)",
        display_result(&as_exc(eval(&exps[0], &mut env, FUEL)))
    );
}

#[test]
fn test_parent_getting() {
    let mut parent = Env::new();
    parent.set("p".to_string(), Exp::Int(101));
    let mut child1 = Env::new_with_parent(&parent);
    child1.set("c1".to_string(), Exp::Int(202));
    let mut child2 = Env::new_with_parent(&child1);
    child2.set("c2".to_string(), Exp::Int(303));
    assert_eq!(Some(Exp::Int(303)), child2.get("c2".to_string()));
    assert_eq!(Some(Exp::Int(202)), child2.get("c1".to_string()));
    assert_eq!(Some(Exp::Int(101)), child2.get("p".to_string()));
    assert_eq!(None, child2.get("qqq".to_string()));
}

#[test]
fn test_def() {
    let mut env = Env::new();
    let exp = parse("(def num 101)");
    eval(&exp, &mut env, FUEL).ok();
    assert_eq!(Some(Exp::Int(101)), env.get("num".to_string()));
}

#[test]
fn test_resolving() {
    let mut env = Env::new();
    let exp = parse("(def num 101)");
    eval(&exp, &mut env, FUEL).ok();
    let exp2 = parse("num");
    assert_eq!(Ok(Exp::Int(101)), as_exc(eval(&exp2, &mut env, FUEL)));
}
