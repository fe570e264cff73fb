use risp::expressions::Exp;
use risp::to_string::to_string;

fn parse(code: &str) -> Exp {
    let mut pos: usize = 0;
    risp::parser::parse_expression(code, &mut pos).unwrap()
}

#[test]
fn test_to_string_list() {
    assert_eq!("(a b c)".to_owned(), to_string(&parse("(a b c)")));
    assert_eq!("(a (* 2 3) c)".to_owned(), to_string(&parse("(a (* 2 3 ) c)")));
}

#[test]
fn test_to_string_atom() {
    assert_eq!("abc".to_owned(), to_string(&parse("abc")));
}

#[test]
fn test_to_string_boolean() {
    assert_eq!("true".to_owned(), to_string(&Exp::Bool(true)));
    assert_eq!("false".to_owned(), to_string(&Exp::Bool(false)));
}

#[test]
fn test_to_string_int() {
    assert_eq!("104".to_owned(), to_string(&Exp::Int(104)));
    assert_eq!("999".to_owned(), to_string(&Exp::Int(999)));
}
