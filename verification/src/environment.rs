use vstd::prelude::*;

use crate::expressions::{exp_view, Exp, ExpV};

verus! {

/// One binding frame: name/value pairs in the order they were written,
/// so the last matching pair is the visible one.
pub type FrameV = Seq<(Seq<char>, ExpV)>;

/// A mutable name-to-value scope, optionally chained to a parent scope
/// that is consulted (read-only) when a name is not bound here.
#[derive(Debug)]
pub struct Env<'a> {
    bindings: Vec<(String, Exp)>,
    parent: Option<&'a Env<'a>>,
}

/// The model of one frame's storage: text becomes `Seq<char>` and each
/// stored expression becomes its mathematical value.
pub open spec fn pairs_view(s: Seq<(String, Exp)>) -> FrameV
    decreases s,
{
    if s.len() == 0 {
        Seq::empty()
    } else {
        pairs_view(s.subrange(0, s.len() - 1)).push(
            (s[s.len() - 1].0@, exp_view(s[s.len() - 1].1)),
        )
    }
}

/// `pairs_view` maps each pair to its model, element by element.
pub broadcast proof fn lemma_pairs_view(s: Seq<(String, Exp)>)
    ensures
        (#[trigger] pairs_view(s)).len() == s.len(),
        forall|i: int|
            0 <= i < s.len() ==> #[trigger] pairs_view(s)[i] == (s[i].0@, exp_view(s[i].1)),
    decreases s,
{
    if s.len() > 0 {
        lemma_pairs_view(s.subrange(0, s.len() - 1));
    }
}

/// Looks a name up in one frame; the binding written last wins.
pub open spec fn lookup_frame(f: FrameV, name: Seq<char>) -> Option<ExpV>
    decreases f.len(),
{
    if f.len() == 0 {
        None
    } else if f.last().0 == name {
        Some(f.last().1)
    } else {
        lookup_frame(f.drop_last(), name)
    }
}

/// Looks a name up along a chain of frames, innermost frame first.
pub open spec fn lookup_chain(c: Seq<FrameV>, name: Seq<char>) -> Option<ExpV>
    decreases c.len(),
{
    if c.len() == 0 {
        None
    } else {
        match lookup_frame(c[0], name) {
            Some(v) => Some(v),
            None => lookup_chain(c.drop_first(), name),
        }
    }
}

impl<'a> Env<'a> {
    /// The model of this scope's own bindings.
    pub closed spec fn frame(self) -> FrameV {
        pairs_view(self.bindings@)
    }

    /// The model of the whole scope chain, this scope's frame first.
    pub closed spec fn chain(self) -> Seq<FrameV>
        decreases self,
    {
        match self.parent {
            None => seq![self.frame()],
            Some(p) => seq![self.frame()] + p.chain(),
        }
    }

    /// A fresh root scope with no bindings and no parent.
    pub fn new() -> (res: Env<'a>)
        ensures
            res.chain() =~= seq![FrameV::empty()],
    {
        Env { bindings: Vec::new(), parent: None }
    }

    /// A fresh empty scope whose lookups fall through to `parent`.
    pub fn new_with_parent(parent: &'a Env<'a>) -> (res: Env<'a>)
        ensures
            res.chain() =~= seq![FrameV::empty()] + parent.chain(),
    {
        Env { bindings: Vec::new(), parent: Some(parent) }
    }

    /// Binds `key` to `value` in this scope only; a parent's binding for
    /// the same name is shadowed, never changed.
    pub fn set(&mut self, key: String, value: Exp)
        ensures
            final(self).chain() =~= old(self).chain().update(
                0,
                old(self).frame().push((key@, value@)),
            ),
    {
        let ghost old_bindings = self.bindings@;
        let ghost old_chain = self.chain();
        self.bindings.push((key, value));
        proof {
            assert(old_bindings.push((key, value)).subrange(
                0,
                old_bindings.push((key, value)).len() - 1,
            ) =~= old_bindings);
            assert(self.chain() =~= old_chain.update(0, pairs_view(old_bindings).push((key@, value@))));
        }
    }

    /// Returns the value bound to `key` in this scope, or failing that in
    /// the nearest ancestor that binds it; `None` when no scope does.
    pub fn get(&self, key: String) -> (res: Option<Exp>)
        ensures
            match res {
                Some(e) => lookup_chain(self.chain(), key@) == Some(e@),
                None => lookup_chain(self.chain(), key@) is None,
            },
        decreases self.chain().len(),
    {
        let ghost f = self.frame();
        let mut k: usize = self.bindings.len();
        proof {
            broadcast use lemma_pairs_view;

            assert(f.take(f.len() as int) =~= f);
        }
        while k > 0
            invariant
                k <= self.bindings@.len(),
                f == self.frame(),
                f.len() == self.bindings@.len(),
                forall|i: int|
                    0 <= i < f.len() ==> #[trigger] f[i] == (
                        self.bindings@[i].0@,
                        exp_view(self.bindings@[i].1),
                    ),
                lookup_frame(f, key@) == lookup_frame(f.take(k as int), key@),
            decreases k,
        {
            k = k - 1;
            if self.bindings[k].0 == key {
                proof {
                    assert(f.take(k + 1).last() == f[k as int]);
                    assert(lookup_frame(f.take(k + 1), key@) == Some(f[k as int].1));
                }
                return Some(self.bindings[k].1.clone());
            }
            proof {
                assert(f.take(k + 1).last() == f[k as int]);
                assert(f.take(k + 1).drop_last() =~= f.take(k as int));
            }
        }
        proof {
            assert(f.take(0) =~= Seq::<(Seq<char>, ExpV)>::empty());
        }
        match self.parent {
            Some(p) => {
                proof {
                    assert(lookup_frame(f.take(0), key@) is None);
                    assert(lookup_frame(self.chain()[0], key@) is None);
                }
                let r = p.get(key);
                proof {
                    assert(self.chain().drop_first() =~= p.chain());
                    assert(self.chain().len() >= 1);
                    assert(lookup_frame(self.chain()[0], key@) is None);
                    assert(lookup_chain(self.chain(), key@) == lookup_chain(
                        self.chain().drop_first(),
                        key@,
                    ));
                    assert(lookup_chain(self.chain(), key@) == lookup_chain(p.chain(), key@));
                }
                r
            },
            None => None,
        }
    }
}

/// A scope chain always starts with the scope's own frame.
pub broadcast proof fn lemma_chain_shape<'a>(e: Env<'a>)
    ensures
        (#[trigger] e.chain()).len() >= 1,
        e.chain()[0] == e.frame(),
{
}

/// A child scope's binding for a name shadows any parent binding for
/// the same name; every other name, and the chain behind the child,
/// are looked up as if the binding were not there.
pub proof fn lemma_child_shadowing(
    child: FrameV,
    rest: Seq<FrameV>,
    name: Seq<char>,
    v: ExpV,
    other: Seq<char>,
)
    ensures
        lookup_chain(seq![child.push((name, v))] + rest, name) == Some(v),
        other != name ==> lookup_chain(seq![child.push((name, v))] + rest, other) == lookup_chain(
            seq![child] + rest,
            other,
        ),
{
    let shadowed = child.push((name, v));
    let c1 = seq![shadowed] + rest;
    let c0 = seq![child] + rest;
    assert(c1[0] == shadowed);
    assert(c0[0] == child);
    assert(shadowed.last() == (name, v));
    assert(lookup_frame(shadowed, name) == Some(v));
    assert(c1.drop_first() =~= rest);
    assert(c0.drop_first() =~= rest);
    if other != name {
        assert(shadowed.drop_last() =~= child);
        assert(lookup_frame(shadowed, other) == lookup_frame(child, other));
    }
}

} // verus!
