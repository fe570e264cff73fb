use risp::expressions::Exp;
use risp::parser::{parse_expression, ParseError};

fn parse_list(code: &str) -> Result<Exp, ParseError> {
    let mut pos: usize = 0;
    risp::parser::parse_list(code, &mut pos)
}

#[test]
fn parsing_expressions() {
    assert_eq!(
        Ok(Exp::List(vec!(
            Exp::Atom("a".to_owned()),
            Exp::List(vec!(Exp::Atom("+".to_owned()), Exp::Int(1), Exp::Int(2))),
            Exp::Bool(true)
        ))),
        parse_list("(a (+ 1 2) true)")
    );

    assert_eq!(
        Ok(Exp::List(vec!(
            Exp::Atom("a".to_owned()),
            Exp::Atom("c".to_owned())
        ))),
        parse_list(" (  a  c )")
    );
}

#[test]
fn parsing_lists() {
    assert_eq!(Ok(Exp::List(vec!())), parse_list("()"));
    assert_eq!(Ok(Exp::List(vec!())), parse_list("  (  )   "));
    assert_eq!(
        Ok(Exp::List(vec!(Exp::Atom("a".to_owned())))),
        parse_list("(a)")
    );
    assert_eq!(
        Ok(Exp::List(vec!(Exp::Atom("a".to_owned())))),
        parse_list(" \n (a\n)")
    );
    assert_eq!(
        Ok(Exp::List(vec!(
            Exp::Atom("a".to_owned()),
            Exp::Atom("b".to_owned()),
            Exp::Atom("c".to_owned())
        ))),
        parse_list("(a b c)")
    );
}

#[test]
fn parsing_lists_error() {
    assert_eq!(
        "Expected )",
        parse_list("(").unwrap_err().message()
    );
    assert_eq!(
        "Expected )",
        parse_list("(()").unwrap_err().message()
    );
    assert_eq!(
        "Expected (",
        parse_list(")").unwrap_err().message()
    );
}

#[test]
fn parse_literals() {
    let mut pos: usize = 0;
    assert_eq!(Exp::Int(101), parse_expression("101", &mut pos).unwrap());
    let mut pos: usize = 0;
    assert_eq!(Exp::Int(1011), parse_expression("1011", &mut pos).unwrap());
    let mut pos: usize = 0;
    assert_eq!(Exp::Int(99), parse_expression("99", &mut pos).unwrap());
    let mut pos: usize = 0;
    assert_eq!(Exp::Bool(true), parse_expression("true", &mut pos).unwrap());
    let mut pos: usize = 0;
    assert_eq!(
        Exp::Bool(false),
        parse_expression("false", &mut pos).unwrap()
    );
}

#[test]
fn parsing_atoms() {
    let mut pos: usize = 0;
    assert_eq!(
        Ok(Exp::Atom("hello".to_owned())),
        risp::parser::parse_token("hello", &mut pos)
    );
    let mut pos: usize = 0;
    assert_eq!(
        "No token found",
        risp::parser::parse_token("", &mut pos).unwrap_err().message()
    );
    let mut pos: usize = 0;
    assert_eq!(
        Ok(Exp::Atom("hello".to_owned())),
        risp::parser::parse_token("hello world", &mut pos)
    );
    let mut pos: usize = 0;
    assert_eq!(
        Ok(Exp::Atom("+".to_owned())),
        risp::parser::parse_token("+ 1 2", &mut pos)
    );
    let mut pos: usize = 0;
    assert_eq!(
        Ok(Exp::Atom("hello".to_owned())),
        risp::parser::parse_token("  hello", &mut pos)
    );
    let mut pos: usize = 0;
    assert_eq!(
        Ok(Exp::Atom("hi".to_owned())),
        risp::parser::parse_token("  hi(ho", &mut pos)
    );
    let mut pos: usize = 0;
    assert_eq!(
        Ok(Exp::Atom("hi".to_owned())),
        risp::parser::parse_token("  hi\n", &mut pos)
    );
}
