use vstd::prelude::*;

use vstd::string::{StrSliceExecFns, StringExecFns};

use crate::expressions::{exp_view, exps_view, lemma_exps_view, Exp, ExpV};
use crate::to_string::{dec_digits, digit_char, int_chars, render, render_items};

verus! {

/// Why the reader stopped: an expected bracket was missing, no token
/// characters were found, or a digit run does not fit a 32-bit integer.
#[derive(Debug, Clone, Copy, PartialEq, Eq, Structural)]
pub enum ParseError {
    ExpectedOpen,
    ExpectedClose,
    NoToken,
    IntOutOfRange,
}

/// The reader's error text.
pub open spec fn parse_error_chars(e: ParseError) -> Seq<char> {
    match e {
        ParseError::ExpectedOpen => "Expected ("@,
        ParseError::ExpectedClose => "Expected )"@,
        ParseError::NoToken => "No token found"@,
        ParseError::IntOutOfRange => "Integer out of range"@,
    }
}

impl ParseError {
    /// The reader's error text.
    pub fn message(&self) -> (r: String)
        ensures
            r@ == parse_error_chars(*self),
    {
        match self {
            ParseError::ExpectedOpen => "Expected (".to_owned(),
            ParseError::ExpectedClose => "Expected )".to_owned(),
            ParseError::NoToken => "No token found".to_owned(),
            ParseError::IntOutOfRange => "Integer out of range".to_owned(),
        }
    }
}

/// What one parse attempt yields: a value, or an error; either way the
/// position where reading stopped.
pub enum ParseOut {
    Val(ExpV, int),
    Fail(ParseError, int),
}

/// The whitespace the reader skips: spaces and newlines.
pub open spec fn is_space(c: char) -> bool {
    c == ' ' || c == '\n'
}

/// A character that may stand in a token: anything but brackets and
/// whitespace.
pub open spec fn is_ident_char(c: char) -> bool {
    c != '(' && c != ')' && c != ' ' && c != '\n'
}

/// An ASCII decimal digit.
pub open spec fn is_digit(c: char) -> bool {
    48 <= c as int && c as int <= 57
}

/// Every character is a digit (vacuously true of the empty run).
pub open spec fn all_digits(t: Seq<char>) -> bool {
    forall|i: int| 0 <= i < t.len() ==> is_digit(#[trigger] t[i])
}

/// The numeric value of a digit run, most significant digit first.
pub open spec fn digits_val(t: Seq<char>) -> int
    decreases t,
{
    if t.len() == 0 {
        0
    } else {
        digits_val(t.subrange(0, t.len() - 1)) * 10 + (t[t.len() - 1] as int - 48)
    }
}

/// The first position at or after `pos` holding no whitespace.
pub open spec fn skip_ws(s: Seq<char>, pos: int) -> int
    decreases s.len() - pos,
{
    if 0 <= pos < s.len() && is_space(s[pos]) {
        skip_ws(s, pos + 1)
    } else {
        pos
    }
}

/// The end of the token-character run beginning at `pos`.
pub open spec fn token_end(s: Seq<char>, pos: int) -> int
    decreases s.len() - pos,
{
    if 0 <= pos < s.len() && is_ident_char(s[pos]) {
        token_end(s, pos + 1)
    } else {
        pos
    }
}

/// Skipping whitespace never moves backwards nor past the end.
pub broadcast proof fn lemma_skip_ws_bounds(s: Seq<char>, pos: int)
    requires
        0 <= pos <= s.len(),
    ensures
        pos <= #[trigger] skip_ws(s, pos) <= s.len(),
    decreases s.len() - pos,
{
    if pos < s.len() && is_space(s[pos]) {
        lemma_skip_ws_bounds(s, pos + 1);
    }
}

/// A token run never moves backwards nor past the end.
pub broadcast proof fn lemma_token_end_bounds(s: Seq<char>, pos: int)
    requires
        0 <= pos <= s.len(),
    ensures
        pos <= #[trigger] token_end(s, pos) <= s.len(),
    decreases s.len() - pos,
{
    if pos < s.len() && is_ident_char(s[pos]) {
        lemma_token_end_bounds(s, pos + 1);
    }
}

/// What the reader makes of the token beginning at `pos`: an integer
/// for a pure digit run that fits in 32 bits, a boolean for exactly
/// `true` or `false`, the nil marker for exactly `nil`, otherwise a
/// symbol; an empty run is an error.
pub open spec fn sp_token(s: Seq<char>, pos: int) -> ParseOut {
    let start = skip_ws(s, pos);
    let end = token_end(s, start);
    let t = s.subrange(start, end);
    if t.len() == 0 {
        ParseOut::Fail(ParseError::NoToken, end)
    } else if all_digits(t) {
        if digits_val(t) <= i32::MAX {
            ParseOut::Val(ExpV::Int(digits_val(t)), end)
        } else {
            ParseOut::Fail(ParseError::IntOutOfRange, end)
        }
    } else if t == "true"@ {
        ParseOut::Val(ExpV::Bool(true), end)
    } else if t == "false"@ {
        ParseOut::Val(ExpV::Bool(false), end)
    } else if t == "nil"@ {
        ParseOut::Val(ExpV::Nil, end)
    } else {
        ParseOut::Val(ExpV::Atom(t), end)
    }
}

/// One expression: a quote mark abbreviates a `quote` form of the
/// expression after it; a `(` opens a list; anything else is a token.
pub open spec fn sp_expression(s: Seq<char>, pos: int) -> ParseOut
    decreases s.len() - pos, 1int,
{
    let p = skip_ws(s, pos);
    if p < pos {
        ParseOut::Fail(ParseError::NoToken, p)
    } else if p < s.len() && s[p] == '\'' {
        match sp_expression(s, p + 1) {
            ParseOut::Val(v, q) => ParseOut::Val(
                ExpV::List(seq![ExpV::Atom("quote"@), v]),
                q,
            ),
            ParseOut::Fail(e, q) => ParseOut::Fail(e, q),
        }
    } else if p < s.len() && s[p] == '(' {
        sp_list(s, p)
    } else {
        sp_token(s, p)
    }
}

/// A bracketed list.  The body is read leniently; the closing bracket
/// must then stand exactly at the position where the body stopped.
pub open spec fn sp_list(s: Seq<char>, pos: int) -> ParseOut
    decreases s.len() - pos, 0int,
{
    let p = skip_ws(s, pos);
    if p < pos {
        ParseOut::Fail(ParseError::ExpectedOpen, p)
    } else if p < s.len() && s[p] == '(' {
        let (items, q) = sp_inner(s, p + 1);
        if q < s.len() && s[q] == ')' {
            ParseOut::Val(ExpV::List(items), q + 1)
        } else {
            ParseOut::Fail(ParseError::ExpectedClose, q)
        }
    } else {
        ParseOut::Fail(ParseError::ExpectedOpen, p)
    }
}

/// A list body: expressions until a closing bracket is next, or until
/// one fails to parse — the elements read so far then stand, and the
/// failure is dropped.
pub open spec fn sp_inner(s: Seq<char>, pos: int) -> (Seq<ExpV>, int)
    decreases s.len() - pos, 2int,
{
    let p = skip_ws(s, pos);
    if p < pos || p > s.len() {
        (Seq::empty(), p)
    } else if p < s.len() && s[p] == ')' {
        (Seq::empty(), p)
    } else {
        match sp_expression(s, p) {
            ParseOut::Val(v, q) => {
                if p < q <= s.len() {
                    let (rest, r) = sp_inner(s, q);
                    (seq![v] + rest, r)
                } else {
                    (seq![v], q)
                }
            },
            ParseOut::Fail(_, q) => (Seq::empty(), q),
        }
    }
}

/// The whole program: expressions in order until the input is exhausted
/// or one fails to parse (the failure is dropped).
pub open spec fn sp_parse_all(s: Seq<char>, pos: int) -> Seq<ExpV>
    decreases s.len() - pos,
{
    let p = skip_ws(s, pos);
    if p < pos || p >= s.len() {
        Seq::empty()
    } else {
        match sp_expression(s, p) {
            ParseOut::Val(v, q) => {
                if p < q <= s.len() {
                    seq![v] + sp_parse_all(s, q)
                } else {
                    seq![v]
                }
            },
            ParseOut::Fail(_, q) => Seq::empty(),
        }
    }
}

/// Digit runs only grow in value as digits are appended, and are never
/// negative.
proof fn lemma_digits_val_mono(t: Seq<char>, j: int)
    requires
        all_digits(t),
        0 <= j <= t.len(),
    ensures
        0 <= digits_val(t.subrange(0, j)),
        digits_val(t.subrange(0, j)) <= digits_val(t),
    decreases t.len(),
{
    if t.len() == 0 {
        assert(t.subrange(0, j) =~= t);
    } else {
        let bl = t.subrange(0, t.len() - 1);
        assert(all_digits(bl));
        if j == t.len() {
            assert(t.subrange(0, j) =~= t);
            lemma_digits_val_mono(bl, bl.len() as int);
            assert(bl.subrange(0, bl.len() as int) =~= bl);
        } else {
            lemma_digits_val_mono(bl, j);
            assert(bl.subrange(0, j) =~= t.subrange(0, j));
        }
    }
}

/// True when the character at `pos` exists and is whitespace.
fn at_space(s: &str, pos: usize) -> (b: bool)
    requires
        pos <= s@.len(),
    ensures
        b == (pos < s@.len() && is_space(s@[pos as int])),
{
    if pos < s.unicode_len() {
        let c = s.get_char(pos);
        c == ' ' || c == '\n'
    } else {
        false
    }
}

/// True when the character at `pos` exists and may stand in a token.
fn at_ident(s: &str, pos: usize) -> (b: bool)
    requires
        pos <= s@.len(),
    ensures
        b == (pos < s@.len() && is_ident_char(s@[pos as int])),
{
    if pos < s.unicode_len() {
        let c = s.get_char(pos);
        c != '(' && c != ')' && c != ' ' && c != '\n'
    } else {
        false
    }
}

/// True when the character at `pos` exists and equals `c`.
fn peek_is(s: &str, pos: usize, c: char) -> (b: bool)
    requires
        pos <= s@.len(),
    ensures
        b == (pos < s@.len() && s@[pos as int] == c),
{
    if pos < s.unicode_len() {
        s.get_char(pos) == c
    } else {
        false
    }
}

/// Advances `pos` past spaces and newlines; returns how many were skipped.
#[verifier::loop_isolation(false)]
fn consume_whitespace(s: &str, pos: &mut usize) -> (count: usize)
    requires
        *old(pos) <= s@.len(),
    ensures
        *old(pos) <= *final(pos) <= s@.len(),
        *final(pos) as int == skip_ws(s@, *old(pos) as int),
        count == *final(pos) - *old(pos),
{
    let slen = s.unicode_len();
    proof {
        assert(s@.len() <= usize::MAX);
    }
    let mut count: usize = 0;
    while at_space(s, *pos)
        invariant
            *old(pos) <= *pos <= s@.len(),
            skip_ws(s@, *old(pos) as int) == skip_ws(s@, *pos as int),
            count == *pos - *old(pos),
        decreases s@.len() - *pos,
    {
        *pos = *pos + 1;
        count = count + 1;
    }
    count
}

/// Relies on `regex::Regex::is_match` with the anchored pattern
/// `\A[0-9]+\z`: it reports a match exactly when the string is one or
/// more ASCII digits and nothing else.
#[verifier::external_body]
fn is_integer_literal(s: &String) -> (r: bool)
    ensures
        r == (s@.len() > 0 && all_digits(s@)),
{
    let int_literal_re = regex::Regex::new(r"\A[0-9]+\z").unwrap();
    int_literal_re.is_match(s)
}

/// Reads one token and classifies it; the result and the final position
/// are exactly what `sp_token` says for the starting position.
#[verifier::loop_isolation(false)]
pub fn parse_token(s: &str, pos: &mut usize) -> (r: Result<Exp, ParseError>)
    requires
        *old(pos) <= s@.len(),
    ensures
        *old(pos) <= *final(pos) <= s@.len(),
        match r {
            Ok(e) => sp_token(s@, *old(pos) as int) == ParseOut::Val(e@, *final(pos) as int)
                && *final(pos) > skip_ws(s@, *old(pos) as int),
            Err(pe) => sp_token(s@, *old(pos) as int) == ParseOut::Fail(pe, *final(pos) as int),
        },
{
    proof {
        broadcast use lemma_skip_ws_bounds, lemma_token_end_bounds;

    }
    let slen = s.unicode_len();
    proof {
        assert(s@.len() <= usize::MAX);
    }
    consume_whitespace(s, pos);
    let start: usize = *pos;
    while at_ident(s, *pos)
        invariant
            start <= *pos <= s@.len(),
            token_end(s@, start as int) == token_end(s@, *pos as int),
        decreases s@.len() - *pos,
    {
        *pos = *pos + 1;
    }
    let ghost t = s@.subrange(start as int, *pos as int);
    if *pos == start {
        return Err(ParseError::NoToken);
    }
    let tok = s.substring_char(start, *pos).to_owned();
    proof {
        assert(tok@ == t);
    }
    if is_integer_literal(&tok) {
        let end: usize = *pos;
        let mut acc: u64 = 0;
        let mut k: usize = start;
        proof {
            assert(s@.subrange(start as int, start as int) =~= Seq::<char>::empty());
        }
        while k < end
            invariant
                start <= k <= end <= s@.len(),
                acc as int == digits_val(s@.subrange(start as int, k as int)),
                acc <= 0x7fff_ffff,
            decreases end - k,
        {
            let c = s.get_char(k);
            proof {
                assert(t[k - start] == s@[k as int]);
                assert(is_digit(s@[k as int]));
            }
            let d: u32 = (c as u32) - 48;
            acc = acc * 10 + (d as u64);
            proof {
                assert(s@.subrange(start as int, k + 1).subrange(0, k - start) =~= s@.subrange(
                    start as int,
                    k as int,
                ));
            }
            k = k + 1;
            if acc > 0x7fff_ffff {
                proof {
                    assert(t.subrange(0, k - start) =~= s@.subrange(start as int, k as int));
                    lemma_digits_val_mono(t, k - start);
                }
                return Err(ParseError::IntOutOfRange);
            }
        }
        proof {
            assert(s@.subrange(start as int, end as int) =~= t);
        }
        return Ok(Exp::Int(acc as i32));
    }
    let t_true = "true".to_owned();
    if tok == t_true {
        return Ok(Exp::Bool(true));
    }
    let t_false = "false".to_owned();
    if tok == t_false {
        return Ok(Exp::Bool(false));
    }
    let t_nil = "nil".to_owned();
    if tok == t_nil {
        return Ok(Exp::Nil);
    }
    Ok(Exp::Atom(tok))
}

/// Reads a list body: expressions until a closing bracket is next or one
/// fails to parse; what was read so far stands either way, as `sp_inner`
/// says.
#[verifier::loop_isolation(false)]
fn parse_inner_list(s: &str, pos: &mut usize) -> (r: Vec<Exp>)
    requires
        *old(pos) <= s@.len(),
    ensures
        *old(pos) <= *final(pos) <= s@.len(),
        sp_inner(s@, *old(pos) as int).0 == exps_view(r@),
        sp_inner(s@, *old(pos) as int).1 == *final(pos) as int,
    decreases s@.len() - *old(pos), 2int,
{
    let mut v: Vec<Exp> = Vec::new();
    proof {
        broadcast use lemma_exps_view, lemma_skip_ws_bounds;

    }
    loop
        invariant
            *old(pos) <= *pos <= s@.len(),
            sp_inner(s@, *old(pos) as int).0 == exps_view(v@) + sp_inner(s@, *pos as int).0,
            sp_inner(s@, *old(pos) as int).1 == sp_inner(s@, *pos as int).1,
        decreases s@.len() - *pos,
    {
        let ghost c = *pos as int;
        consume_whitespace(s, pos);
        let ghost p = *pos as int;
        if peek_is(s, *pos, ')') {
            proof {
                assert(sp_inner(s@, c) == (Seq::<ExpV>::empty(), p));
                assert(exps_view(v@) + Seq::<ExpV>::empty() =~= exps_view(v@));
            }
            return v;
        }
        let ghost old_items = v@;
        match parse_expression(s, pos) {
            Ok(e) => {
                let ghost q = *pos as int;
                v.push(e);
                proof {
                    assert(sp_inner(s@, c) == (
                        seq![e@] + sp_inner(s@, q).0,
                        sp_inner(s@, q).1,
                    ));
                    assert(exps_view(v@) =~= exps_view(old_items) + seq![e@]);
                    assert((exps_view(old_items) + seq![e@]) + sp_inner(s@, q).0
                        =~= exps_view(old_items) + (seq![e@] + sp_inner(s@, q).0));
                }
            },
            Err(_) => {
                proof {
                    assert(sp_inner(s@, c) == (Seq::<ExpV>::empty(), *pos as int));
                    assert(exps_view(v@) + Seq::<ExpV>::empty() =~= exps_view(v@));
                }
                return v;
            },
        }
    }
}

/// Reads one bracketed list; the result and the final position are
/// exactly what `sp_list` says for the starting position.
#[verifier::loop_isolation(false)]
pub fn parse_list(s: &str, pos: &mut usize) -> (r: Result<Exp, ParseError>)
    requires
        *old(pos) <= s@.len(),
    ensures
        *old(pos) <= *final(pos) <= s@.len(),
        match r {
            Ok(e) => sp_list(s@, *old(pos) as int) == ParseOut::Val(e@, *final(pos) as int)
                && *final(pos) > skip_ws(s@, *old(pos) as int),
            Err(pe) => sp_list(s@, *old(pos) as int) == ParseOut::Fail(pe, *final(pos) as int),
        },
    decreases s@.len() - *old(pos), 0int,
{
    proof {
        broadcast use lemma_skip_ws_bounds, lemma_exps_view;

    }
    let slen = s.unicode_len();
    proof {
        assert(s@.len() <= usize::MAX);
    }
    consume_whitespace(s, pos);
    if peek_is(s, *pos, '(') {
        *pos = *pos + 1;
        let v = parse_inner_list(s, pos);
        if peek_is(s, *pos, ')') {
            *pos = *pos + 1;
            Ok(Exp::List(v))
        } else {
            Err(ParseError::ExpectedClose)
        }
    } else {
        Err(ParseError::ExpectedOpen)
    }
}

/// Reads one expression: a quote mark abbreviates a `quote` form of
/// the expression after it; a `(` opens a list; anything else is a
/// token.  The result and the final position are exactly what
/// `sp_expression` says for the starting position.
#[verifier::loop_isolation(false)]
pub fn parse_expression(s: &str, pos: &mut usize) -> (r: Result<Exp, ParseError>)
    requires
        *old(pos) <= s@.len(),
    ensures
        *old(pos) <= *final(pos) <= s@.len(),
        match r {
            Ok(e) => sp_expression(s@, *old(pos) as int) == ParseOut::Val(
                e@,
                *final(pos) as int,
            ) && *final(pos) > skip_ws(s@, *old(pos) as int),
            Err(pe) => sp_expression(s@, *old(pos) as int) == ParseOut::Fail(
                pe,
                *final(pos) as int,
            ),
        },
    decreases s@.len() - *old(pos), 1int,
{
    proof {
        broadcast use lemma_skip_ws_bounds, crate::expressions::lemma_exps_view;

    }
    let slen = s.unicode_len();
    proof {
        assert(s@.len() <= usize::MAX);
    }
    consume_whitespace(s, pos);
    if peek_is(s, *pos, '\'') {
        *pos = *pos + 1;
        match parse_expression(s, pos) {
            Ok(inner) => {
                let mut v: Vec<Exp> = Vec::new();
                v.push(Exp::Atom("quote".to_owned()));
                v.push(inner);
                proof {
                    assert(exps_view(v@) =~= seq![ExpV::Atom("quote"@), exps_view(v@)[1]]);
                }
                Ok(Exp::List(v))
            },
            Err(e) => Err(e),
        }
    } else if peek_is(s, *pos, '(') {
        parse_list(s, pos)
    } else {
        parse_token(s, pos)
    }
}

/// Reads a whole program: expressions in order until the input is
/// exhausted or one fails to parse; the failure, if any, is dropped.
#[verifier::loop_isolation(false)]
pub fn parse(code: &str) -> (r: Vec<Exp>)
    ensures
        exps_view(r@) == sp_parse_all(code@, 0),
{
    let mut pos: usize = 0;
    let mut out: Vec<Exp> = Vec::new();
    proof {
        broadcast use lemma_exps_view, lemma_skip_ws_bounds;

    }
    loop
        invariant
            pos <= code@.len(),
            sp_parse_all(code@, 0) == exps_view(out@) + sp_parse_all(code@, pos as int),
        decreases code@.len() - pos,
    {
        let ghost c = pos as int;
        consume_whitespace(code, &mut pos);
        if pos == code.unicode_len() {
            proof {
                assert(sp_parse_all(code@, c) =~= Seq::<ExpV>::empty());
                assert(exps_view(out@) + Seq::<ExpV>::empty() =~= exps_view(out@));
            }
            return out;
        }
        let ghost old_items = out@;
        match parse_expression(code, &mut pos) {
            Ok(e) => {
                let ghost q = pos as int;
                out.push(e);
                proof {
                    assert(sp_parse_all(code@, c) == seq![e@] + sp_parse_all(code@, q));
                    assert(exps_view(out@) =~= exps_view(old_items) + seq![e@]);
                    assert((exps_view(old_items) + seq![e@]) + sp_parse_all(code@, q)
                        =~= exps_view(old_items) + (seq![e@] + sp_parse_all(code@, q)));
                }
            },
            Err(_) => {
                proof {
                    assert(sp_parse_all(code@, c) =~= Seq::<ExpV>::empty());
                    assert(exps_view(out@) + Seq::<ExpV>::empty() =~= exps_view(out@));
                }
                return out;
            },
        }
    }
}

/// A symbol the renderer writes and the reader reads back as one
/// token: non-empty, token characters only, not starting with a quote
/// mark, and — when it is all digits — in canonical 32-bit decimal
/// form, so that the integer it reads back as renders identically.
pub open spec fn sym_ok(a: Seq<char>) -> bool {
    &&& a.len() > 0
    &&& (forall|i: int| 0 <= i < a.len() ==> is_ident_char(#[trigger] a[i]))
    &&& a[0] != '\''
    &&& (all_digits(a) ==> (a.len() == 1 || a[0] != '0') && digits_val(a) <= i32::MAX)
}

/// A tree of symbols and lists only, every symbol well formed.
pub open spec fn tree_ok(t: ExpV) -> bool
    decreases t,
{
    match t {
        ExpV::Atom(a) => sym_ok(a),
        ExpV::List(items) => forall|i: int| 0 <= i < items.len() ==> tree_ok(#[trigger] items[i]),
        _ => false,
    }
}

/// A digit run without a leading zero has a positive value.
proof fn lemma_digits_val_pos(a: Seq<char>)
    requires
        all_digits(a),
        a.len() >= 1,
        a[0] != '0',
    ensures
        digits_val(a) >= 1,
    decreases a.len(),
{
    if a.len() == 1 {
        assert(a.subrange(0, 0) =~= Seq::<char>::empty());
        assert(digits_val(Seq::<char>::empty()) == 0);
        assert(is_digit(a[0]));
        assert(a[0] as int != 48);
    } else {
        let bl = a.subrange(0, a.len() - 1);
        assert(all_digits(bl));
        assert(bl[0] == a[0]);
        lemma_digits_val_pos(bl);
        assert(is_digit(a[a.len() - 1]));
    }
}

/// The canonical decimal digits of the value a canonical digit run
/// denotes are that run itself.
proof fn lemma_dec_digits_roundtrip(a: Seq<char>)
    requires
        all_digits(a),
        a.len() >= 1,
        a.len() > 1 ==> a[0] != '0',
    ensures
        digits_val(a) >= 0,
        dec_digits(digits_val(a) as nat) == a,
    decreases a.len(),
{
    lemma_digits_val_mono(a, a.len() as int);
    assert(a.subrange(0, a.len() as int) =~= a);
    if a.len() == 1 {
        let d = a[0] as int - 48;
        assert(a.subrange(0, 0) =~= Seq::<char>::empty());
        assert(digits_val(Seq::<char>::empty()) == 0);
        assert(digits_val(a) == d);
        assert(is_digit(a[0]));
        assert(digit_char(d) == a[0]);
        assert(dec_digits(d as nat) =~= a);
    } else {
        let bl = a.subrange(0, a.len() - 1);
        assert(all_digits(bl));
        assert(bl[0] == a[0]);
        lemma_dec_digits_roundtrip(bl);
        lemma_digits_val_pos(bl);
        let d = a[a.len() - 1] as int - 48;
        let v = digits_val(a);
        let bv = digits_val(bl);
        assert(is_digit(a[a.len() - 1]));
        assert(v == bv * 10 + d);
        assert(0 <= d < 10);
        assert(v / 10 == bv && v % 10 == d) by (nonlinear_arith)
            requires
                v == bv * 10 + d,
                0 <= d < 10,
                bv >= 0,
        ;
        assert(v >= 10);
        assert(digit_char(d) == a[a.len() - 1]);
        assert(dec_digits(v as nat) == dec_digits(bv as nat).push(digit_char(d)));
        assert(dec_digits(v as nat) =~= a);
    }
}

/// A run of token characters ends exactly where they stop.
proof fn lemma_token_end_run(s: Seq<char>, pos: int, e: int)
    requires
        0 <= pos <= e <= s.len(),
        forall|j: int| pos <= j < e ==> is_ident_char(#[trigger] s[j]),
        e == s.len() || !is_ident_char(s[e]),
    ensures
        token_end(s, pos) == e,
    decreases e - pos,
{
    if pos < e {
        lemma_token_end_run(s, pos + 1, e);
    }
}

/// The rendering of a list body, split at the front element.
proof fn lemma_render_items_front(v: Seq<ExpV>)
    requires
        v.len() >= 2,
    ensures
        render_items(v) == render(v[0]) + seq![' '] + render_items(v.subrange(1, v.len() as int)),
    decreases v.len(),
{
    let n = v.len() as int;
    let bl = v.subrange(0, n - 1);
    let tail = v.subrange(1, n);
    if v.len() == 2 {
        assert(bl[0] == v[0]);
        assert(tail[0] == v[1]);
        assert(render_items(bl) == render(bl[0]));
        assert(render_items(tail) == render(tail[0]));
        assert(render_items(v) =~= render(v[0]) + seq![' '] + render_items(tail));
    } else {
        lemma_render_items_front(bl);
        assert(bl.subrange(1, bl.len() as int) =~= tail.subrange(0, tail.len() - 1));
        assert(bl[0] == v[0]);
        assert(tail[tail.len() - 1] == v[n - 1]);
        assert(render_items(tail) == render_items(tail.subrange(0, tail.len() - 1)) + seq![' ']
            + render(tail[tail.len() - 1]));
        assert(render_items(v) =~= render(v[0]) + seq![' '] + render_items(tail));
    }
}

/// Item lists whose elements render alike render alike.
proof fn lemma_render_items_congruence(u: Seq<ExpV>, w: Seq<ExpV>)
    requires
        u.len() == w.len(),
        forall|i: int| 0 <= i < u.len() ==> render(#[trigger] u[i]) == render(w[i]),
    ensures
        render_items(u) == render_items(w),
    decreases u.len(),
{
    if u.len() >= 2 {
        let ub = u.subrange(0, u.len() - 1);
        let wb = w.subrange(0, w.len() - 1);
        lemma_render_items_congruence(ub, wb);
    }
}

/// What the first character of a rendered well-formed tree can be.
proof fn lemma_render_head(t: ExpV)
    requires
        tree_ok(t),
    ensures
        render(t).len() >= 1,
        !is_space(render(t)[0]),
        render(t)[0] != ')',
        render(t)[0] != '\'',
        t is List <==> render(t)[0] == '(',
{
    match t {
        ExpV::Atom(a) => {
            assert(render(t) == a);
            assert(is_ident_char(a[0]));
        },
        ExpV::List(items) => {
            assert(render(t)[0] == '(');
        },
        _ => {},
    }
}

/// Reading one rendered well-formed tree out of `s` yields a tree that
/// renders identically, and consumes exactly the rendered text.
proof fn lemma_rt_expression(t: ExpV, s: Seq<char>, pos: int)
    requires
        tree_ok(t),
        0 <= pos <= s.len(),
        skip_ws(s, pos) + render(t).len() <= s.len(),
        s.subrange(skip_ws(s, pos), skip_ws(s, pos) + render(t).len()) == render(t),
        skip_ws(s, pos) + render(t).len() == s.len() || !is_ident_char(
            s[skip_ws(s, pos) + render(t).len()],
        ),
    ensures
        sp_expression(s, pos) is Val,
        sp_expression(s, pos)->Val_1 == skip_ws(s, pos) + render(t).len(),
        render(sp_expression(s, pos)->Val_0) == render(t),
    decreases t, 0int,
{
    broadcast use lemma_skip_ws_bounds;

    let start = skip_ws(s, pos);
    let e = start + render(t).len();
    lemma_render_head(t);
    assert forall|j: int| 0 <= j < render(t).len() implies s[start + j] == render(t)[j] by {
        assert(s.subrange(start, e)[j] == s[start + j]);
    }
    assert(s[start] == render(t)[0]);
    assert(skip_ws(s, start) == start);
    match t {
        ExpV::Atom(a) => {
            assert(render(t) == a);
            assert forall|j: int| start <= j < e implies is_ident_char(#[trigger] s[j]) by {
                assert(s[j] == a[j - start]);
            }
            lemma_token_end_run(s, start, e);
            let tk = s.subrange(start, e);
            assert(tk == a);
            assert(s[start] != '\'');
            assert(s[start] != '(');
            if all_digits(a) {
                lemma_dec_digits_roundtrip(a);
                assert(sp_token(s, start) == ParseOut::Val(ExpV::Int(digits_val(a)), e));
                assert(render(ExpV::Int(digits_val(a))) == int_chars(digits_val(a)));
                assert(int_chars(digits_val(a)) == dec_digits(digits_val(a) as nat));
                assert(render(sp_expression(s, pos)->Val_0) == a);
            } else if a == "true"@ {
                assert(sp_token(s, start) == ParseOut::Val(ExpV::Bool(true), e));
            } else if a == "false"@ {
                assert(sp_token(s, start) == ParseOut::Val(ExpV::Bool(false), e));
            } else if a == "nil"@ {
                assert(sp_token(s, start) == ParseOut::Val(ExpV::Nil, e));
            } else {
                assert(sp_token(s, start) == ParseOut::Val(ExpV::Atom(a), e));
            }
        },
        ExpV::List(items) => {
            let body = render_items(items);
            let il = body.len() as int;
            assert(render(t) =~= seq!['('] + body + seq![')']);
            assert(render(t).len() == il + 2);
            assert(s[start] == '(');
            assert(s[e - 1] == render(t)[il + 1]);
            assert(s[e - 1] == ')');
            assert forall|j: int| 0 <= j < il implies s[start + 1 + j] == body[j] by {
                assert(render(t)[1 + j] == body[j]);
            }
            assert(s.subrange(start + 1, start + 1 + il) =~= body) by {
                assert(forall|j: int|
                    0 <= j < il ==> #[trigger] s.subrange(start + 1, start + 1 + il)[j] == s[start
                        + 1 + j]);
            }
            assert(skip_ws(s, start + 1) == start + 1) by {
                if items.len() == 0 {
                    assert(s[start + 1] == ')');
                } else {
                    lemma_render_head(items[0]);
                    if items.len() == 1 {
                        assert(body == render(items[0]));
                        assert(s[start + 1] == render(items[0])[0]);
                    } else {
                        lemma_render_items_front(items);
                        assert(body[0] == render(items[0])[0]);
                        assert(s[start + 1] == render(items[0])[0]);
                    }
                }
            }
            lemma_rt_inner(items, s, start + 1);
            let inner = sp_inner(s, start + 1);
            assert(inner.1 == start + 1 + il);
            assert(s[start + 1 + il] == ')');
            assert(sp_list(s, start) == ParseOut::Val(ExpV::List(inner.0), e));
            lemma_render_items_congruence(inner.0, items);
            assert(render(ExpV::List(inner.0)) =~= render(t));
        },
        _ => {},
    }
}

/// Reading a rendered list body out of `s` yields elements that render
/// like the originals, stopping exactly at the closing bracket.
proof fn lemma_rt_inner(items: Seq<ExpV>, s: Seq<char>, pos: int)
    requires
        forall|i: int| 0 <= i < items.len() ==> tree_ok(#[trigger] items[i]),
        0 <= pos <= s.len(),
        skip_ws(s, pos) + render_items(items).len() < s.len(),
        s.subrange(skip_ws(s, pos), skip_ws(s, pos) + render_items(items).len()) == render_items(
            items,
        ),
        s[skip_ws(s, pos) + render_items(items).len()] == ')',
    ensures
        sp_inner(s, pos).1 == skip_ws(s, pos) + render_items(items).len(),
        sp_inner(s, pos).0.len() == items.len(),
        forall|i: int|
            0 <= i < items.len() ==> render(#[trigger] sp_inner(s, pos).0[i]) == render(items[i]),
    decreases items, 1int,
{
    broadcast use lemma_skip_ws_bounds;

    let start = skip_ws(s, pos);
    let il = render_items(items).len() as int;
    let e = start + il;
    assert forall|j: int| 0 <= j < il implies s[start + j] == render_items(items)[j] by {
        assert(s.subrange(start, e)[j] == s[start + j]);
    }
    if items.len() == 0 {
        assert(s[start] == ')');
        assert(sp_inner(s, pos) == (Seq::<ExpV>::empty(), start));
    } else {
        let t0 = items[0];
        lemma_render_head(t0);
        let l0 = render(t0).len() as int;
        if items.len() == 1 {
            assert(render_items(items) == render(t0));
            assert(s[start] == render(t0)[0]);
            assert(s[start] != ')');
            lemma_rt_expression(t0, s, start);
            let q = start + l0;
            assert(q == e);
            assert(s[q] == ')');
            assert(skip_ws(s, q) == q);
            assert(sp_inner(s, q) == (Seq::<ExpV>::empty(), q));
            let v0 = sp_expression(s, start)->Val_0;
            assert(sp_inner(s, pos).0 =~= seq![v0]);
            assert(sp_inner(s, pos).1 == e);
        } else {
            lemma_render_items_front(items);
            let rest = items.subrange(1, items.len() as int);
            let rl = render_items(rest).len() as int;
            assert(il == l0 + 1 + rl);
            assert(render_items(items)[0] == render(t0)[0]);
            assert(s[start + 0] == render_items(items)[0]);
            assert(s[start] == render(t0)[0]);
            assert(render(t0)[0] != ')');
            assert(s[start] != ')');
            assert forall|j: int| 0 <= j < l0 implies s[start + j] == render(t0)[j] by {
                assert(render_items(items)[j] == render(t0)[j]);
            }
            assert(s.subrange(start, start + l0) =~= render(t0)) by {
                assert(forall|j: int|
                    0 <= j < l0 ==> #[trigger] s.subrange(start, start + l0)[j] == s[start + j]);
            }
            let q = start + l0;
            assert(s[q] == render_items(items)[l0]);
            assert(s[q] == ' ');
            lemma_rt_expression(t0, s, start);
            assert(sp_expression(s, start) is Val);
            assert(sp_expression(s, start)->Val_1 == q);
            lemma_render_head(rest[0]);
            assert forall|j: int| 0 <= j < rl implies s[q + 1 + j] == render_items(rest)[j] by {
                assert(render_items(items)[l0 + 1 + j] == render_items(rest)[j]);
            }
            if rest.len() >= 2 {
                lemma_render_items_front(rest);
                assert(render_items(rest)[0] == render(rest[0])[0]);
            } else {
                assert(render_items(rest) == render(rest[0]));
            }
            assert(s[q + 1] == render(rest[0])[0]);
            assert(!is_space(s[q + 1]));
            assert(skip_ws(s, q) == skip_ws(s, q + 1));
            assert(skip_ws(s, q + 1) == q + 1);
            assert(s.subrange(q + 1, q + 1 + rl) =~= render_items(rest)) by {
                assert(forall|j: int|
                    0 <= j < rl ==> #[trigger] s.subrange(q + 1, q + 1 + rl)[j] == s[q + 1 + j]);
            }
            assert(s[q + 1 + rl] == ')');
            lemma_rt_inner(rest, s, q);
            let v0 = sp_expression(s, start)->Val_0;
            let rec = sp_inner(s, q);
            assert(rec.1 == e);
            assert(sp_inner(s, pos).0 =~= seq![v0] + rec.0);
            assert(sp_inner(s, pos).0.len() == items.len());
            assert forall|i: int|
                0 <= i < items.len() implies render(#[trigger] sp_inner(s, pos).0[i]) == render(
                items[i],
            ) by {
                if i == 0 {
                } else {
                    assert(sp_inner(s, pos).0[i] == rec.0[i - 1]);
                    assert(rest[i - 1] == items[i]);
                }
            }
        }
    }
}

/// Rendering a tree of well-formed symbols and lists, reading the text
/// back, and rendering the result reproduces the text exactly.
pub proof fn theorem_render_parse_render(t: ExpV)
    requires
        tree_ok(t),
    ensures
        sp_expression(render(t), 0) is Val,
        render(sp_expression(render(t), 0)->Val_0) == render(t),
{
    let s = render(t);
    lemma_render_head(t);
    assert(skip_ws(s, 0) == 0);
    assert(s.subrange(0, s.len() as int) =~= s);
    lemma_rt_expression(t, s, 0);
}

} // verus!
