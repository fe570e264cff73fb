use vstd::prelude::*;

use vstd::string::{StrSliceExecFns, StringExecFns};

verus! {

/// The value type of the plain reader: a symbol or a list of values.
/// This early reader has no literals: every token is an atom.
#[derive(Debug, PartialEq, Eq)]
pub enum Exp {
    Atom(String),
    List(Vec<Exp>),
}

/// The mathematical value of a plain-reader expression.
#[verifier::ext_equal]
pub enum ExpV {
    Atom(Seq<char>),
    List(Seq<ExpV>),
}

pub open spec fn exp_view(e: Exp) -> ExpV
    decreases e,
{
    match e {
        Exp::Atom(s) => ExpV::Atom(s@),
        Exp::List(v) => ExpV::List(exps_view(v@)),
    }
}

pub open spec fn exps_view(s: Seq<Exp>) -> Seq<ExpV>
    decreases s,
{
    if s.len() == 0 {
        Seq::empty()
    } else {
        exps_view(s.subrange(0, s.len() - 1)).push(exp_view(s[s.len() - 1]))
    }
}

/// `exps_view` maps `exp_view` over the sequence, element by element.
pub broadcast proof fn lemma_exps_view(s: Seq<Exp>)
    ensures
        (#[trigger] exps_view(s)).len() == s.len(),
        forall|i: int| 0 <= i < s.len() ==> #[trigger] exps_view(s)[i] == exp_view(s[i]),
    decreases s,
{
    if s.len() > 0 {
        lemma_exps_view(s.subrange(0, s.len() - 1));
    }
}

impl View for Exp {
    type V = ExpV;

    open spec fn view(&self) -> ExpV {
        exp_view(*self)
    }
}

/// Why the plain reader stopped.
#[derive(Debug, Clone, Copy, PartialEq, Eq, Structural)]
pub enum ParseError {
    ExpectedOpen,
    ExpectedClose,
    NoAtom,
}

/// The plain reader's error text.
pub open spec fn parse_error_chars(e: ParseError) -> Seq<char> {
    match e {
        ParseError::ExpectedOpen => "Expected ("@,
        ParseError::ExpectedClose => "Expected )"@,
        ParseError::NoAtom => "No atom found"@,
    }
}

impl ParseError {
    /// The plain reader's error text.
    pub fn message(&self) -> (r: String)
        ensures
            r@ == parse_error_chars(*self),
    {
        match self {
            ParseError::ExpectedOpen => "Expected (".to_owned(),
            ParseError::ExpectedClose => "Expected )".to_owned(),
            ParseError::NoAtom => "No atom found".to_owned(),
        }
    }
}

/// What one parse attempt yields: a value, or an error; either way the
/// position where reading stopped.
pub enum ParseOut {
    Val(ExpV, int),
    Fail(ParseError, int),
}

/// A character that may stand in an atom: anything but `)` and space.
/// (This early reader stops atoms at nothing else, `(` included.)
pub open spec fn is_atom_char(c: char) -> bool {
    c != ')' && c != ' '
}

/// The first position at or after `pos` holding no space.
pub open spec fn skip_ws(s: Seq<char>, pos: int) -> int
    decreases s.len() - pos,
{
    if 0 <= pos < s.len() && s[pos] == ' ' {
        skip_ws(s, pos + 1)
    } else {
        pos
    }
}

/// The end of the atom-character run beginning at `pos`.
pub open spec fn token_end(s: Seq<char>, pos: int) -> int
    decreases s.len() - pos,
{
    if 0 <= pos < s.len() && is_atom_char(s[pos]) {
        token_end(s, pos + 1)
    } else {
        pos
    }
}

/// Skipping spaces never moves backwards nor past the end.
pub broadcast proof fn lemma_skip_ws_bounds(s: Seq<char>, pos: int)
    requires
        0 <= pos <= s.len(),
    ensures
        pos <= #[trigger] skip_ws(s, pos) <= s.len(),
    decreases s.len() - pos,
{
    if pos < s.len() && s[pos] == ' ' {
        lemma_skip_ws_bounds(s, pos + 1);
    }
}

/// The atom beginning at `pos`; an empty run is an error.
pub open spec fn sp_atom(s: Seq<char>, pos: int) -> ParseOut {
    let start = skip_ws(s, pos);
    let end = token_end(s, start);
    let t = s.subrange(start, end);
    if t.len() == 0 {
        ParseOut::Fail(ParseError::NoAtom, end)
    } else {
        ParseOut::Val(ExpV::Atom(t), end)
    }
}

/// One expression: a list if the next character (after spaces) opens
/// one, otherwise an atom.
pub open spec fn sp_expression(s: Seq<char>, pos: int) -> ParseOut
    decreases s.len() - pos, 1int,
{
    let p = skip_ws(s, pos);
    if p < pos {
        ParseOut::Fail(ParseError::NoAtom, p)
    } else if p < s.len() && s[p] == '(' {
        sp_list(s, p)
    } else {
        sp_atom(s, p)
    }
}

/// A bracketed list, read leniently as the main reader does.
pub open spec fn sp_list(s: Seq<char>, pos: int) -> ParseOut
    decreases s.len() - pos, 0int,
{
    let p = skip_ws(s, pos);
    if p < pos {
        ParseOut::Fail(ParseError::ExpectedOpen, p)
    } else if p < s.len() && s[p] == '(' {
        let (items, q) = sp_inner(s, p + 1);
        if q < s.len() && s[q] == ')' {
            ParseOut::Val(ExpV::List(items), q + 1)
        } else {
            ParseOut::Fail(ParseError::ExpectedClose, q)
        }
    } else {
        ParseOut::Fail(ParseError::ExpectedOpen, p)
    }
}

/// A list body: expressions until a closing bracket is next, or until
/// one fails to parse — the elements read so far then stand.
pub open spec fn sp_inner(s: Seq<char>, pos: int) -> (Seq<ExpV>, int)
    decreases s.len() - pos, 2int,
{
    let p = skip_ws(s, pos);
    if p < pos || p > s.len() {
        (Seq::empty(), p)
    } else if p < s.len() && s[p] == ')' {
        (Seq::empty(), p)
    } else {
        match sp_expression(s, p) {
            ParseOut::Val(v, q) => {
                if p < q <= s.len() {
                    let (rest, r) = sp_inner(s, q);
                    (seq![v] + rest, r)
                } else {
                    (seq![v], q)
                }
            },
            ParseOut::Fail(_, q) => (Seq::empty(), q),
        }
    }
}

/// True when the character at `pos` exists and is a space.
fn at_space(s: &str, pos: usize) -> (b: bool)
    requires
        pos <= s@.len(),
    ensures
        b == (pos < s@.len() && s@[pos as int] == ' '),
{
    if pos < s.unicode_len() {
        s.get_char(pos) == ' '
    } else {
        false
    }
}

/// True when the character at `pos` exists and may stand in an atom.
fn at_atom(s: &str, pos: usize) -> (b: bool)
    requires
        pos <= s@.len(),
    ensures
        b == (pos < s@.len() && is_atom_char(s@[pos as int])),
{
    if pos < s.unicode_len() {
        let c = s.get_char(pos);
        c != ')' && c != ' '
    } else {
        false
    }
}

/// True when the character at `pos` exists and equals `c`.
fn peek_is(s: &str, pos: usize, c: char) -> (b: bool)
    requires
        pos <= s@.len(),
    ensures
        b == (pos < s@.len() && s@[pos as int] == c),
{
    if pos < s.unicode_len() {
        s.get_char(pos) == c
    } else {
        false
    }
}

/// Advances `pos` past spaces; returns how many were skipped.
#[verifier::loop_isolation(false)]
fn consume_whitespace(s: &str, pos: &mut usize) -> (count: usize)
    requires
        *old(pos) <= s@.len(),
    ensures
        *old(pos) <= *final(pos) <= s@.len(),
        *final(pos) as int == skip_ws(s@, *old(pos) as int),
        count == *final(pos) - *old(pos),
{
    let slen = s.unicode_len();
    proof {
        assert(s@.len() <= usize::MAX);
    }
    let mut count: usize = 0;
    while at_space(s, *pos)
        invariant
            *old(pos) <= *pos <= s@.len(),
            skip_ws(s@, *old(pos) as int) == skip_ws(s@, *pos as int),
            count == *pos - *old(pos),
        decreases s@.len() - *pos,
    {
        *pos = *pos + 1;
        count = count + 1;
    }
    count
}

/// Reads one atom; the result and the final position are exactly what
/// `sp_atom` says for the starting position.
#[verifier::loop_isolation(false)]
pub fn parse_atom(s: &str, pos: &mut usize) -> (r: Result<Exp, ParseError>)
    requires
        *old(pos) <= s@.len(),
    ensures
        *old(pos) <= *final(pos) <= s@.len(),
        match r {
            Ok(e) => sp_atom(s@, *old(pos) as int) == ParseOut::Val(e@, *final(pos) as int)
                && *final(pos) > skip_ws(s@, *old(pos) as int),
            Err(pe) => sp_atom(s@, *old(pos) as int) == ParseOut::Fail(pe, *final(pos) as int),
        },
{
    let slen = s.unicode_len();
    proof {
        assert(s@.len() <= usize::MAX);
        broadcast use lemma_skip_ws_bounds;

    }
    consume_whitespace(s, pos);
    let start: usize = *pos;
    while at_atom(s, *pos)
        invariant
            start <= *pos <= s@.len(),
            token_end(s@, start as int) == token_end(s@, *pos as int),
        decreases s@.len() - *pos,
    {
        *pos = *pos + 1;
    }
    if *pos == start {
        return Err(ParseError::NoAtom);
    }
    let tok = s.substring_char(start, *pos).to_owned();
    Ok(Exp::Atom(tok))
}

/// Reads a list body leniently; exactly what `sp_inner` says.
#[verifier::loop_isolation(false)]
fn parse_inner_list(s: &str, pos: &mut usize) -> (r: Vec<Exp>)
    requires
        *old(pos) <= s@.len(),
    ensures
        *old(pos) <= *final(pos) <= s@.len(),
        sp_inner(s@, *old(pos) as int).0 == exps_view(r@),
        sp_inner(s@, *old(pos) as int).1 == *final(pos) as int,
    decreases s@.len() - *old(pos), 2int,
{
    let mut v: Vec<Exp> = Vec::new();
    proof {
        broadcast use lemma_exps_view, lemma_skip_ws_bounds;

    }
    loop
        invariant
            *old(pos) <= *pos <= s@.len(),
            sp_inner(s@, *old(pos) as int).0 == exps_view(v@) + sp_inner(s@, *pos as int).0,
            sp_inner(s@, *old(pos) as int).1 == sp_inner(s@, *pos as int).1,
        decreases s@.len() - *pos,
    {
        let ghost c = *pos as int;
        consume_whitespace(s, pos);
        let ghost p = *pos as int;
        if peek_is(s, *pos, ')') {
            proof {
                assert(sp_inner(s@, c) == (Seq::<ExpV>::empty(), p));
                assert(exps_view(v@) + Seq::<ExpV>::empty() =~= exps_view(v@));
            }
            return v;
        }
        let ghost old_items = v@;
        match parse_expression(s, pos) {
            Ok(e) => {
                let ghost q = *pos as int;
                v.push(e);
                proof {
                    assert(sp_inner(s@, c) == (seq![e@] + sp_inner(s@, q).0, sp_inner(s@, q).1));
                    assert(exps_view(v@) =~= exps_view(old_items) + seq![e@]);
                    assert((exps_view(old_items) + seq![e@]) + sp_inner(s@, q).0 =~= exps_view(
                        old_items,
                    ) + (seq![e@] + sp_inner(s@, q).0));
                }
            },
            Err(_) => {
                proof {
                    assert(sp_inner(s@, c) == (Seq::<ExpV>::empty(), *pos as int));
                    assert(exps_view(v@) + Seq::<ExpV>::empty() =~= exps_view(v@));
                }
                return v;
            },
        }
    }
}

/// Reads one bracketed list; exactly what `sp_list` says.
#[verifier::loop_isolation(false)]
pub fn parse_list(s: &str, pos: &mut usize) -> (r: Result<Exp, ParseError>)
    requires
        *old(pos) <= s@.len(),
    ensures
        *old(pos) <= *final(pos) <= s@.len(),
        match r {
            Ok(e) => sp_list(s@, *old(pos) as int) == ParseOut::Val(e@, *final(pos) as int)
                && *final(pos) > skip_ws(s@, *old(pos) as int),
            Err(pe) => sp_list(s@, *old(pos) as int) == ParseOut::Fail(pe, *final(pos) as int),
        },
    decreases s@.len() - *old(pos), 0int,
{
    let slen = s.unicode_len();
    proof {
        assert(s@.len() <= usize::MAX);
        broadcast use lemma_skip_ws_bounds, lemma_exps_view;

    }
    consume_whitespace(s, pos);
    if peek_is(s, *pos, '(') {
        *pos = *pos + 1;
        let v = parse_inner_list(s, pos);
        if peek_is(s, *pos, ')') {
            *pos = *pos + 1;
            Ok(Exp::List(v))
        } else {
            Err(ParseError::ExpectedClose)
        }
    } else {
        Err(ParseError::ExpectedOpen)
    }
}

/// Reads one expression: a list when a `(` is next, otherwise an atom;
/// exactly what `sp_expression` says.
#[verifier::loop_isolation(false)]
pub fn parse_expression(s: &str, pos: &mut usize) -> (r: Result<Exp, ParseError>)
    requires
        *old(pos) <= s@.len(),
    ensures
        *old(pos) <= *final(pos) <= s@.len(),
        match r {
            Ok(e) => sp_expression(s@, *old(pos) as int) == ParseOut::Val(e@, *final(pos) as int)
                && *final(pos) > skip_ws(s@, *old(pos) as int),
            Err(pe) => sp_expression(s@, *old(pos) as int) == ParseOut::Fail(
                pe,
                *final(pos) as int,
            ),
        },
    decreases s@.len() - *old(pos), 1int,
{
    proof {
        broadcast use lemma_skip_ws_bounds;

    }
    consume_whitespace(s, pos);
    if peek_is(s, *pos, '(') {
        parse_list(s, pos)
    } else {
        parse_atom(s, pos)
    }
}

} // verus!
