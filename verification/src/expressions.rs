use vstd::prelude::*;

use crate::builtins::BuiltIn;

verus! {

/// The tagged value type shared by parsed syntax and runtime values.
///
/// `Atom` holds a symbol's text, `List` an ordered sequence of
/// sub-expressions.  Integers are signed 32-bit; `Nil` is the canonical
/// empty/absent marker.  `BuiltIn` tags a primitive operation and
/// `Function` carries a user-defined closure record.
#[derive(Debug, PartialEq, Eq)]
pub enum Exp {
    Atom(String),
    List(Vec<Exp>),
    Int(i32),
    Bool(bool),
    Nil,
    BuiltIn(BuiltIn),
    Function(Function),
    Exception(Exception),
}

/// A user-defined callable: parameter names (atoms), a body, and an
/// optional self-reference name that lets the function call itself.
#[derive(Debug, PartialEq, Eq)]
pub struct Function {
    pub arg_names: Vec<Exp>,
    pub body_exps: Vec<Exp>,
    pub self_name: Option<String>,
}

/// A recoverable error value: a kind, a message, and the trail of
/// expressions that were being evaluated when the error occurred,
/// innermost first.
#[derive(Debug, PartialEq, Eq)]
pub struct Exception {
    pub etype: ExceptionType,
    pub message: String,
    pub backtrace: Vec<Exp>,
}

#[derive(Debug, Clone, Copy, PartialEq, Eq, Structural)]
pub enum ExceptionType {
    ArgumentError,
    SyntaxError,
    UncallableCalled,
    UnknownSymbol,
    AssertionFailed,
}

/// The mathematical model of an `Exp`: text becomes `Seq<char>`,
/// vectors become `Seq`, and machine integers become `int`.
#[verifier::ext_equal]
pub enum ExpV {
    Atom(Seq<char>),
    List(Seq<ExpV>),
    Int(int),
    Bool(bool),
    Nil,
    BuiltIn(BuiltIn),
    Function(FunctionV),
    Exception(ExceptionV),
}

#[verifier::ext_equal]
pub struct FunctionV {
    pub arg_names: Seq<ExpV>,
    pub body_exps: Seq<ExpV>,
    pub self_name: Option<Seq<char>>,
}

#[verifier::ext_equal]
pub struct ExceptionV {
    pub etype: ExceptionType,
    pub message: Seq<char>,
    pub backtrace: Seq<ExpV>,
}

pub open spec fn exp_view(e: Exp) -> ExpV
    decreases e,
{
    match e {
        Exp::Atom(s) => ExpV::Atom(s@),
        Exp::List(v) => ExpV::List(exps_view(v@)),
        Exp::Int(i) => ExpV::Int(i as int),
        Exp::Bool(b) => ExpV::Bool(b),
        Exp::Nil => ExpV::Nil,
        Exp::BuiltIn(b) => ExpV::BuiltIn(b),
        Exp::Function(f) => ExpV::Function(
            FunctionV {
                arg_names: exps_view(f.arg_names@),
                body_exps: exps_view(f.body_exps@),
                self_name: match f.self_name {
                    Some(n) => Some(n@),
                    None => None,
                },
            },
        ),
        Exp::Exception(x) => ExpV::Exception(
            ExceptionV {
                etype: x.etype,
                message: x.message@,
                backtrace: exps_view(x.backtrace@),
            },
        ),
    }
}

pub open spec fn exps_view(s: Seq<Exp>) -> Seq<ExpV>
    decreases s,
{
    if s.len() == 0 {
        Seq::empty()
    } else {
        exps_view(s.subrange(0, s.len() - 1)).push(exp_view(s[s.len() - 1]))
    }
}

/// `exps_view` maps `exp_view` over the sequence, element by element.
pub broadcast proof fn lemma_exps_view(s: Seq<Exp>)
    ensures
        (#[trigger] exps_view(s)).len() == s.len(),
        forall|i: int| 0 <= i < s.len() ==> #[trigger] exps_view(s)[i] == exp_view(s[i]),
    decreases s,
{
    if s.len() > 0 {
        lemma_exps_view(s.subrange(0, s.len() - 1));
    }
}

impl View for Exp {
    type V = ExpV;

    open spec fn view(&self) -> ExpV {
        exp_view(*self)
    }
}

impl Exp {
    /// A deep copy; the copy has the same mathematical value.
    pub fn duplicate(&self) -> (res: Exp)
        ensures
            res@ == self@,
        decreases *self,
    {
        match self {
            Exp::Atom(s) => Exp::Atom(s.clone()),
            Exp::List(v) => {
                let dup = duplicate_vec(v);
                proof {
                    broadcast use lemma_exps_view;

                    assert(exps_view(dup@) =~= exps_view(v@));
                }
                Exp::List(dup)
            },
            Exp::Int(i) => Exp::Int(*i),
            Exp::Bool(b) => Exp::Bool(*b),
            Exp::Nil => Exp::Nil,
            Exp::BuiltIn(b) => Exp::BuiltIn(*b),
            Exp::Function(f) => {
                let an = duplicate_vec(&f.arg_names);
                let bo = duplicate_vec(&f.body_exps);
                proof {
                    broadcast use lemma_exps_view;

                    assert(exps_view(an@) =~= exps_view(f.arg_names@));
                    assert(exps_view(bo@) =~= exps_view(f.body_exps@));
                }
                Exp::Function(
                    Function {
                        arg_names: an,
                        body_exps: bo,
                        self_name: match &f.self_name {
                            Some(n) => Some(n.clone()),
                            None => None,
                        },
                    },
                )
            },
            Exp::Exception(x) => {
                let bt = duplicate_vec(&x.backtrace);
                proof {
                    broadcast use lemma_exps_view;

                    assert(exps_view(bt@) =~= exps_view(x.backtrace@));
                }
                Exp::Exception(
                    Exception {
                        etype: x.etype,
                        message: x.message.clone(),
                        backtrace: bt,
                    },
                )
            },
        }
    }
}

/// Deep-copies every element; the copies have the same mathematical values.
fn duplicate_vec(v: &Vec<Exp>) -> (res: Vec<Exp>)
    ensures
        res@.len() == v@.len(),
        forall|i: int| 0 <= i < v@.len() ==> #[trigger] exp_view(res@[i]) == exp_view(v@[i]),
    decreases v,
{
    let mut res: Vec<Exp> = Vec::new();
    let mut k: usize = 0;
    while k < v.len()
        invariant
            k <= v@.len(),
            res@.len() == k,
            forall|i: int| 0 <= i < k ==> #[trigger] exp_view(res@[i]) == exp_view(v@[i]),
        decreases v@.len() - k,
    {
        res.push(v[k].duplicate());
        k = k + 1;
    }
    res
}

impl Clone for Exp {
    fn clone(&self) -> (res: Self)
        ensures
            res@ == self@,
    {
        self.duplicate()
    }
}

impl Clone for Function {
    fn clone(&self) -> (res: Self)
        ensures
            res@ == self@,
    {
        let an = duplicate_vec(&self.arg_names);
        let bo = duplicate_vec(&self.body_exps);
        proof {
            broadcast use lemma_exps_view;

            assert(exps_view(an@) =~= exps_view(self.arg_names@));
            assert(exps_view(bo@) =~= exps_view(self.body_exps@));
        }
        Function {
            arg_names: an,
            body_exps: bo,
            self_name: match &self.self_name {
                Some(n) => Some(n.clone()),
                None => None,
            },
        }
    }
}

impl Clone for Exception {
    fn clone(&self) -> (res: Self)
        ensures
            res@ == self@,
    {
        let bt = duplicate_vec(&self.backtrace);
        proof {
            broadcast use lemma_exps_view;

            assert(exps_view(bt@) =~= exps_view(self.backtrace@));
        }
        Exception {
            etype: self.etype,
            message: self.message.clone(),
            backtrace: bt,
        }
    }
}

impl View for Function {
    type V = FunctionV;

    open spec fn view(&self) -> FunctionV {
        match exp_view(Exp::Function(*self)) {
            ExpV::Function(fv) => fv,
            _ => arbitrary(),
        }
    }
}

impl View for Exception {
    type V = ExceptionV;

    open spec fn view(&self) -> ExceptionV {
        match exp_view(Exp::Exception(*self)) {
            ExpV::Exception(xv) => xv,
            _ => arbitrary(),
        }
    }
}

impl Exp {
    /// Deep structural comparison; true exactly when the two expressions
    /// have the same mathematical value.
    pub fn exp_eq(&self, other: &Exp) -> (r: bool)
        ensures
            r == (self@ == other@),
        decreases *self,
    {
        match self {
            Exp::Atom(a) => match other {
                Exp::Atom(b) => *a == *b,
                _ => false,
            },
            Exp::List(u) => match other {
                Exp::List(w) => exps_eq(u, w),
                _ => false,
            },
            Exp::Int(i) => match other {
                Exp::Int(j) => *i == *j,
                _ => false,
            },
            Exp::Bool(p) => match other {
                Exp::Bool(q) => *p == *q,
                _ => false,
            },
            Exp::Nil => match other {
                Exp::Nil => true,
                _ => false,
            },
            Exp::BuiltIn(x) => match other {
                Exp::BuiltIn(y) => *x == *y,
                _ => false,
            },
            Exp::Function(f) => match other {
                Exp::Function(g) => {
                    let names_eq = match (&f.self_name, &g.self_name) {
                        (Some(a), Some(b)) => *a == *b,
                        (None, None) => true,
                        _ => false,
                    };
                    names_eq && exps_eq(&f.arg_names, &g.arg_names) && exps_eq(
                        &f.body_exps,
                        &g.body_exps,
                    )
                },
                _ => false,
            },
            Exp::Exception(x) => match other {
                Exp::Exception(y) => {
                    x.etype == y.etype && x.message == y.message && exps_eq(
                        &x.backtrace,
                        &y.backtrace,
                    )
                },
                _ => false,
            },
        }
    }
}

/// Compares two expression vectors element by element; true exactly when
/// their mathematical values are the same sequence.
fn exps_eq(u: &Vec<Exp>, w: &Vec<Exp>) -> (r: bool)
    ensures
        r == (exps_view(u@) == exps_view(w@)),
    decreases u,
{
    proof {
        broadcast use lemma_exps_view;

    }
    if u.len() != w.len() {
        return false;
    }
    let mut k: usize = 0;
    while k < u.len()
        invariant
            u@.len() == w@.len(),
            k <= u@.len(),
            forall|i: int| 0 <= i < k ==> #[trigger] exp_view(u@[i]) == exp_view(w@[i]),
        decreases u@.len() - k,
    {
        if !u[k].exp_eq(&w[k]) {
            proof {
                broadcast use lemma_exps_view;

                assert(exps_view(u@)[k as int] != exps_view(w@)[k as int]);
            }
            return false;
        }
        k = k + 1;
    }
    proof {
        broadcast use lemma_exps_view;

        assert(exps_view(u@) =~= exps_view(w@));
    }
    true
}

/// Structural equality is reflexive, and on lists it is exactly the
/// element-wise comparison: two list values are equal when they have
/// the same length and structurally equal elements, and only then.
pub proof fn lemma_eq_structural(a: ExpV, s1: Seq<ExpV>, s2: Seq<ExpV>)
    ensures
        a == a,
        (ExpV::List(s1) == ExpV::List(s2)) <==> (s1.len() == s2.len() && (forall|i: int|
            0 <= i < s1.len() ==> s1[i] == s2[i])),
{
    if s1.len() == s2.len() && (forall|i: int| 0 <= i < s1.len() ==> s1[i] == s2[i]) {
        assert(s1 =~= s2);
    }
}

} // verus!
