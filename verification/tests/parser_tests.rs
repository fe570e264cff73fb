use risp::atom_parser::{parse_atom, parse_list, Exp};

#[test]
fn parser_parsing_expressions() {
    let mut pos: usize = 0;
    assert_eq!(
        Ok(Exp::List(vec!(
            Exp::Atom("a".to_owned()),
            Exp::List(vec!(
                Exp::Atom("+".to_owned()),
                Exp::Atom("1".to_owned()),
                Exp::Atom("2".to_owned())
            )),
            Exp::Atom("c".to_owned())
        ))),
        parse_list("(a (+ 1 2) c)", &mut pos)
    );

    let mut pos: usize = 0;
    assert_eq!(
        Ok(Exp::List(vec!(
            Exp::Atom("a".to_owned()),
            Exp::Atom("c".to_owned())
        ))),
        parse_list(" (  a  c )", &mut pos)
    );
}

#[test]
fn parser_parsing_lists() {
    let mut pos: usize = 0;
    assert_eq!(Ok(Exp::List(vec!())), parse_list("()", &mut pos));
    let mut pos: usize = 0;
    assert_eq!(Ok(Exp::List(vec!())), parse_list("  (  )   ", &mut pos));
    let mut pos: usize = 0;
    assert_eq!(
        Ok(Exp::List(vec!(Exp::Atom("a".to_owned())))),
        parse_list("(a)", &mut pos)
    );
    let mut pos: usize = 0;
    assert_eq!(
        Ok(Exp::List(vec!(
            Exp::Atom("a".to_owned()),
            Exp::Atom("b".to_owned()),
            Exp::Atom("c".to_owned())
        ))),
        parse_list("(a b c)", &mut pos)
    );
}

#[test]
fn parser_parsing_atoms() {
    let mut pos: usize = 0;
    assert_eq!(
        Ok(Exp::Atom("hello".to_owned())),
        parse_atom("hello", &mut pos)
    );
    let mut pos: usize = 0;
    let err = parse_atom("", &mut pos).unwrap_err();
    assert_eq!("No atom found", err.message());
    let mut pos: usize = 0;
    assert_eq!(
        Ok(Exp::Atom("hello".to_owned())),
        parse_atom("hello world", &mut pos)
    );
    let mut pos: usize = 0;
    assert_eq!(Ok(Exp::Atom("+".to_owned())), parse_atom("+ 1 2", &mut pos));
    let mut pos: usize = 0;
    assert_eq!(
        Ok(Exp::Atom("hello".to_owned())),
        parse_atom("  hello", &mut pos)
    );
}
