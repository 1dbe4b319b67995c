//! The environment: a mapping from identifier to value, last write wins.
//!
//! The evaluator threads one environment through a run and hands every
//! nested evaluation an independent snapshot, so bindings made inside a
//! nested block never leak outward.
use vstd::prelude::*;

use crate::text::str_eq;
use crate::value::{Value, ValueV};

verus! {

/// A binding list. Its view is the sequence of `(name, value shape)` pairs
/// in the order the bindings were made; [`lookup`] reads the latest one.
pub struct Memory {
    pairs: Vec<(String, Value)>,
}

/// The latest binding of `k`, if any.
pub open spec fn lookup(m: Seq<(Seq<char>, ValueV)>, k: Seq<char>) -> Option<ValueV>
    decreases m.len(),
{
    if m.len() == 0 {
        Option::None
    } else if m.last().0 == k {
        Option::Some(m.last().1)
    } else {
        lookup(m.drop_last(), k)
    }
}

/// Whether `k` is bound.
pub open spec fn contains_name(m: Seq<(Seq<char>, ValueV)>, k: Seq<char>) -> bool {
    lookup(m, k) is Some
}

/// A binding in `m2` exists in `m1` too, for every name.
pub proof fn lemma_lookup_push(m: Seq<(Seq<char>, ValueV)>, p: (Seq<char>, ValueV), k: Seq<char>)
    ensures
        p.0 == k ==> lookup(m.push(p), k) == Option::Some(p.1),
        p.0 != k ==> lookup(m.push(p), k) == lookup(m, k),
{
    let w = m.push(p);
    assert(w.drop_last() =~= m);
    assert(w.last() == p);
}

impl View for Memory {
    type V = Seq<(Seq<char>, ValueV)>;

    closed spec fn view(&self) -> Seq<(Seq<char>, ValueV)> {
        Seq::new(self.pairs@.len(), |i: int| (self.pairs@[i].0@, self.pairs@[i].1.deep_view()))
    }
}

impl Memory {
    /// An environment with no bindings.
    pub fn new() -> (r: Memory)
        ensures
            r@ == Seq::<(Seq<char>, ValueV)>::empty(),
    {
        let r = Memory { pairs: Vec::new() };
        proof {
            assert(r@ =~= Seq::<(Seq<char>, ValueV)>::empty());
        }
        r
    }

    /// Binds `name` to `value`, shadowing any earlier binding of the name.
    pub fn insert(&mut self, name: String, value: Value)
        ensures
            final(self)@ == old(self)@.push((name@, value.deep_view())),
    {
        let ghost gname = name@;
        let ghost gval = value.deep_view();
        self.pairs.push((name, value));
        proof {
            assert(final(self)@ =~= old(self)@.push((gname, gval)));
        }
    }

    /// A copy of the latest binding of `name`, if the name is bound.
    pub fn get_copy(&self, name: &str) -> (r: Option<Value>)
        ensures
            match lookup(self@, name@) {
                Option::Some(v) => r matches Option::Some(x) && x.deep_view() == v,
                Option::None => r is None,
            },
    {
        let n = self.pairs.len();
        let mut i: usize = n;
        proof {
            assert(self@.take(n as int) =~= self@);
        }
        while i > 0
            invariant
                0 <= i <= n,
                n == self.pairs@.len(),
                lookup(self@, name@) == lookup(self@.take(i as int), name@),
            decreases i,
        {
            i = i - 1;
            proof {
                let t1 = self@.take(i + 1);
                assert(t1.drop_last() =~= self@.take(i as int));
                assert(t1.last() == self@[i as int]);
            }
            if str_eq(self.pairs[i].0.as_str(), name) {
                return Option::Some(self.pairs[i].1.duplicate());
            }
        }
        proof {
            assert(self@.take(0) =~= Seq::<(Seq<char>, ValueV)>::empty());
        }
        Option::None
    }

    /// An independent snapshot: the same bindings, shared with nobody.
    pub fn snapshot(&self) -> (r: Memory)
        ensures
            r@ == self@,
    {
        let n = self.pairs.len();
        let mut pairs: Vec<(String, Value)> = Vec::new();
        let mut i: usize = 0;
        while i < n
            invariant
                0 <= i <= n,
                n == self.pairs@.len(),
                pairs@.len() == i,
                forall|j: int|
                    0 <= j < i ==> (#[trigger] pairs@[j]).0@ == self.pairs@[j].0@ && pairs@[j].1.deep_view()
                        == self.pairs@[j].1.deep_view(),
            decreases n - i,
        {
            let name = self.pairs[i].0.clone();
            let value = self.pairs[i].1.duplicate();
            pairs.push((name, value));
            i = i + 1;
        }
        let r = Memory { pairs };
        proof {
            assert(r@ =~= self@);
        }
        r
    }
}

} // verus!
