use vstd::prelude::*;

use vstd::string::{StrSliceExecFns, StringExecFns};

use crate::expressions::{exp_view, exps_view, lemma_exps_view, Exception, ExceptionType, ExceptionV, Exp, ExpV};

verus! {

/// The character for one decimal digit value.
pub open spec fn digit_char(d: int) -> char {
    if d == 0 {
        '0'
    } else if d == 1 {
        '1'
    } else if d == 2 {
        '2'
    } else if d == 3 {
        '3'
    } else if d == 4 {
        '4'
    } else if d == 5 {
        '5'
    } else if d == 6 {
        '6'
    } else if d == 7 {
        '7'
    } else if d == 8 {
        '8'
    } else {
        '9'
    }
}

/// The decimal digits of `n`, most significant first, no leading zeros
/// (a single `'0'` for zero).
pub open spec fn dec_digits(n: nat) -> Seq<char>
    decreases n,
{
    if n < 10 {
        seq![digit_char(n as int)]
    } else {
        dec_digits((n / 10) as nat).push(digit_char((n % 10) as int))
    }
}

/// The decimal rendering of a signed integer, `'-'` first when negative.
pub open spec fn int_chars(i: int) -> Seq<char> {
    if i < 0 {
        seq!['-'] + dec_digits((-i) as nat)
    } else {
        dec_digits(i as nat)
    }
}

/// The textual form of a value: parenthesised, space-separated lists;
/// opaque placeholder tokens for builtins, functions and exceptions.
pub open spec fn render(e: ExpV) -> Seq<char>
    decreases e,
{
    match e {
        ExpV::Atom(s) => s,
        ExpV::List(v) => seq!['('] + render_items(v) + seq![')'],
        ExpV::Int(i) => int_chars(i),
        ExpV::Bool(b) => if b {
            "true"@
        } else {
            "false"@
        },
        ExpV::Nil => "nil"@,
        ExpV::BuiltIn(_) => "#BuiltIn"@,
        ExpV::Function(_) => "#Function"@,
        ExpV::Exception(_) => "#Exception"@,
    }
}

/// The space-joined renderings of a list's elements.
pub open spec fn render_items(v: Seq<ExpV>) -> Seq<char>
    decreases v,
{
    if v.len() == 0 {
        Seq::empty()
    } else if v.len() == 1 {
        render(v[0])
    } else {
        render_items(v.subrange(0, v.len() - 1)) + seq![' '] + render(v[v.len() - 1])
    }
}

/// Appends the decimal digits of `n` to `out`.
fn push_digits(n: u32, out: &mut String)
    ensures
        final(out)@ == old(out)@ + dec_digits(n as nat),
    decreases n,
{
    if n >= 10 {
        proof {
            assert(n / 10 < n) by (nonlinear_arith)
                requires
                    n >= 10,
            ;
        }
        push_digits(n / 10, out);
    }
    let d = n % 10;
    if d == 0 {
        out.append("0");
    } else if d == 1 {
        out.append("1");
    } else if d == 2 {
        out.append("2");
    } else if d == 3 {
        out.append("3");
    } else if d == 4 {
        out.append("4");
    } else if d == 5 {
        out.append("5");
    } else if d == 6 {
        out.append("6");
    } else if d == 7 {
        out.append("7");
    } else if d == 8 {
        out.append("8");
    } else {
        out.append("9");
    }
    proof {
        reveal_strlit("0");
        reveal_strlit("1");
        reveal_strlit("2");
        reveal_strlit("3");
        reveal_strlit("4");
        reveal_strlit("5");
        reveal_strlit("6");
        reveal_strlit("7");
        reveal_strlit("8");
        reveal_strlit("9");
        assert(final(out)@ =~= old(out)@ + dec_digits(n as nat));
    }
}

/// The decimal rendering of `i`.
pub fn int_to_string(i: i32) -> (r: String)
    ensures
        r@ == int_chars(i as int),
{
    let mut out = String::new();
    if i < 0 {
        out.append("-");
        let m: u32 = (-(i as i64)) as u32;
        proof {
            reveal_strlit("-");
            assert(m as nat == -(i as int));
            assert(out@ =~= seq!['-']);
        }
        push_digits(m, &mut out);
        proof {
            assert(out@ =~= int_chars(i as int));
        }
    } else {
        push_digits(i as u32, &mut out);
        proof {
            assert(out@ =~= int_chars(i as int));
        }
    }
    out
}

/// Renders a value as text; the result is `render` of the value's model.
#[verifier::loop_isolation(false)]
pub fn to_string(value: &Exp) -> (r: String)
    ensures
        r@ == render(value@),
    decreases *value,
{
    match value {
        Exp::Atom(a) => a.clone(),
        Exp::Int(i) => int_to_string(*i),
        Exp::Bool(b) => if *b {
            "true".to_owned()
        } else {
            "false".to_owned()
        },
        Exp::Nil => "nil".to_owned(),
        Exp::BuiltIn(_) => "#BuiltIn".to_owned(),
        Exp::Function(_) => "#Function".to_owned(),
        Exp::Exception(_) => "#Exception".to_owned(),
        Exp::List(v) => {
            let ghost vv = exps_view(v@);
            proof {
                broadcast use lemma_exps_view;

                reveal_strlit("(");
                reveal_strlit(")");
            }
            let mut out = "(".to_owned();
            proof {
                assert(out@ =~= seq!['('] + render_items(vv.take(0)));
            }
            let mut k: usize = 0;
            while k < v.len()
                invariant
                    k <= v@.len(),
                    vv == exps_view(v@),
                    vv.len() == v@.len(),
                    forall|i: int| 0 <= i < v@.len() ==> #[trigger] vv[i] == exp_view(v@[i]),
                    out@ == seq!['('] + render_items(vv.take(k as int)),
                decreases v@.len() - k,
            {
                if k > 0 {
                    out.append(" ");
                    proof {
                        reveal_strlit(" ");
                    }
                }
                proof {
                    assert(decreases_to!(*value => value->List_0));
                    assert(decreases_to!(value->List_0 => v@[k as int]));
                    assert(decreases_to!(*value => v@[k as int]));
                }
                let sub = to_string(&v[k]);
                out.append(sub.as_str());
                proof {
                    assert(vv.take(k + 1).subrange(0, k as int) =~= vv.take(k as int));
                    assert(vv.take(k + 1)[k as int] == vv[k as int]);
                    if k == 0 {
                        assert(out@ =~= seq!['('] + render_items(vv.take(1)));
                    } else {
                        assert(out@ =~= seq!['('] + render_items(vv.take(k + 1)));
                    }
                }
                k = k + 1;
            }
            out.append(")");
            proof {
                assert(vv.take(v@.len() as int) =~= vv);
                assert(out@ =~= render(value@));
            }
            out
        },
    }
}

/// The name of an exception kind, as text.
pub open spec fn etype_chars(t: ExceptionType) -> Seq<char> {
    match t {
        ExceptionType::ArgumentError => "ArgumentError"@,
        ExceptionType::SyntaxError => "SyntaxError"@,
        ExceptionType::UncallableCalled => "UncallableCalled"@,
        ExceptionType::UnknownSymbol => "UnknownSymbol"@,
        ExceptionType::AssertionFailed => "AssertionFailed"@,
    }
}

/// The first 30 characters of a backtrace line.
pub open spec fn truncate30(s: Seq<char>) -> Seq<char> {
    if s.len() <= 30 {
        s
    } else {
        s.take(30)
    }
}

/// The rendered backtrace: one indented, truncated line per frame.
pub open spec fn backtrace_chars(bt: Seq<ExpV>) -> Seq<char>
    decreases bt,
{
    if bt.len() == 0 {
        Seq::empty()
    } else {
        backtrace_chars(bt.subrange(0, bt.len() - 1)) + "  "@ + truncate30(
            render(bt[bt.len() - 1]),
        ) + "\n"@
    }
}

/// The rendered form of a failed evaluation: kind, message, backtrace.
pub open spec fn exception_chars(x: ExceptionV) -> Seq<char> {
    "Exception! -- "@ + etype_chars(x.etype) + ": "@ + x.message + "\n"@ + backtrace_chars(
        x.backtrace,
    )
}

/// The name of an exception kind.
fn etype_string(t: ExceptionType) -> (r: String)
    ensures
        r@ == etype_chars(t),
{
    match t {
        ExceptionType::ArgumentError => "ArgumentError".to_owned(),
        ExceptionType::SyntaxError => "SyntaxError".to_owned(),
        ExceptionType::UncallableCalled => "UncallableCalled".to_owned(),
        ExceptionType::UnknownSymbol => "UnknownSymbol".to_owned(),
        ExceptionType::AssertionFailed => "AssertionFailed".to_owned(),
    }
}

/// The first `n` characters of `s`, or all of `s` when it is shorter.
fn take_chars(s: &String, n: usize) -> (r: String)
    ensures
        r@ == if s@.len() <= n {
            s@
        } else {
            s@.take(n as int)
        },
{
    let len = s.as_str().unicode_len();
    if len <= n {
        s.clone()
    } else {
        s.as_str().substring_char(0, n).to_owned()
    }
}

/// Renders a finished evaluation: the value's text on success, or the
/// exception's kind, message and truncated backtrace on failure.
pub fn display_result(result: &Result<Exp, Exception>) -> (r: String)
    ensures
        match result {
            Ok(e) => r@ == render(e@),
            Err(x) => r@ == exception_chars(x@),
        },
{
    match result {
        Ok(exp) => to_string(exp),
        Err(exc) => {
            let mut out = "Exception! -- ".to_owned();
            let kind = etype_string(exc.etype);
            out.append(kind.as_str());
            out.append(": ");
            out.append(exc.message.as_str());
            out.append("\n");
            let ghost bt = exps_view(exc.backtrace@);
            let ghost header = "Exception! -- "@ + etype_chars(exc.etype) + ": "@ + exc.message@
                + "\n"@;
            proof {
                broadcast use lemma_exps_view;

                assert(out@ =~= header + backtrace_chars(bt.take(0)));
            }
            let mut k: usize = 0;
            while k < exc.backtrace.len()
                invariant
                    k <= exc.backtrace@.len(),
                    bt == exps_view(exc.backtrace@),
                    bt.len() == exc.backtrace@.len(),
                    forall|i: int|
                        0 <= i < bt.len() ==> #[trigger] bt[i] == exp_view(exc.backtrace@[i]),
                    out@ == header + backtrace_chars(bt.take(k as int)),
                decreases exc.backtrace@.len() - k,
            {
                out.append("  ");
                let line = to_string(&exc.backtrace[k]);
                let line = take_chars(&line, 30);
                out.append(line.as_str());
                out.append("\n");
                proof {
                    assert(bt.take(k + 1).subrange(0, k as int) =~= bt.take(k as int));
                    assert(bt.take(k + 1)[k as int] == bt[k as int]);
                    assert(out@ =~= header + backtrace_chars(bt.take(k + 1)));
                }
                k = k + 1;
            }
            proof {
                assert(bt.take(exc.backtrace@.len() as int) =~= bt);
                assert(out@ =~= exception_chars(exc@));
            }
            out
        },
    }
}

} // verus!
