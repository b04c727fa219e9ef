use vstd::prelude::*;

use crate::value::{char_value, lemma_views_len, views, Val, Value};

verus! {

/// A type whose values are carried through a parse as `Value`s.
pub trait Repr: Sized {
    /// The value that stands for `x`.
    spec fn encode(x: Self) -> Val;

    /// Whether `v` stands for some value of the type.
    spec fn fits(v: Val) -> bool;

    /// What stands for a value always fits the type.
    proof fn lemma_encode_fits(x: Self)
        ensures
            Self::fits(Self::encode(x)),
    ;

    fn into_value(self) -> (v: Value)
        ensures
            v@ == Self::encode(self),
    ;

    fn from_value(v: Value) -> (r: Option<Self>)
        ensures
            r is Some <==> Self::fits(v@),
            r matches Some(x) ==> Self::encode(x) == v@,
    ;
}

impl Repr for () {
    open spec fn encode(x: ()) -> Val {
        Val::Unit
    }

    open spec fn fits(v: Val) -> bool {
        v is Unit
    }

    proof fn lemma_encode_fits(x: ()) {
    }

    fn into_value(self) -> (v: Value) {
        Value::Unit
    }

    fn from_value(v: Value) -> (r: Option<()>) {
        match v {
            Value::Unit => Some(()),
            _ => None,
        }
    }
}

impl Repr for char {
    open spec fn encode(x: char) -> Val {
        Val::Char(x)
    }

    open spec fn fits(v: Val) -> bool {
        v is Char
    }

    proof fn lemma_encode_fits(x: char) {
    }

    fn into_value(self) -> (v: Value) {
        char_value(self)
    }

    fn from_value(v: Value) -> (r: Option<char>) {
        match v {
            Value::Char(c) => Some(c),
            _ => None,
        }
    }
}

impl Repr for bool {
    open spec fn encode(x: bool) -> Val {
        Val::Bool(x)
    }

    open spec fn fits(v: Val) -> bool {
        v is Bool
    }

    proof fn lemma_encode_fits(x: bool) {
    }

    fn into_value(self) -> (v: Value) {
        Value::Bool(self)
    }

    fn from_value(v: Value) -> (r: Option<bool>) {
        match v {
            Value::Bool(b) => Some(b),
            _ => None,
        }
    }
}

impl Repr for String {
    open spec fn encode(x: String) -> Val {
        Val::Text(x@)
    }

    open spec fn fits(v: Val) -> bool {
        v is Text
    }

    proof fn lemma_encode_fits(x: String) {
    }

    fn into_value(self) -> (v: Value) {
        Value::Text(self)
    }

    fn from_value(v: Value) -> (r: Option<String>) {
        match v {
            Value::Text(s) => Some(s),
            _ => None,
        }
    }
}

impl<A: Repr, B: Repr> Repr for (A, B) {
    open spec fn encode(x: (A, B)) -> Val {
        Val::Pair(Box::new(A::encode(x.0)), Box::new(B::encode(x.1)))
    }

    open spec fn fits(v: Val) -> bool {
        match v {
            Val::Pair(a, b) => A::fits(*a) && B::fits(*b),
            _ => false,
        }
    }

    proof fn lemma_encode_fits(x: (A, B)) {
        A::lemma_encode_fits(x.0);
        B::lemma_encode_fits(x.1);
    }

    fn into_value(self) -> (v: Value) {
        let (a, b) = self;
        Value::Pair(Box::new(a.into_value()), Box::new(b.into_value()))
    }

    fn from_value(v: Value) -> (r: Option<(A, B)>) {
        match v {
            Value::Pair(a, b) => {
                let ghost va = a@;
                let ghost vb = b@;
                match (A::from_value(*a), B::from_value(*b)) {
                    (Some(x), Some(y)) => Some((x, y)),
                    _ => None,
                }
            },
            _ => None,
        }
    }
}

/// What stands for each item of a sequence, in order.
pub open spec fn encode_all<A: Repr>(xs: Seq<A>) -> Seq<Val> {
    Seq::new(xs.len(), |i: int| A::encode(xs[i]))
}

/// Whether each value of the sequence stands for a value of `A`.
pub open spec fn all_fit<A: Repr>(vs: Seq<Val>) -> bool {
    forall|i: int| 0 <= i < vs.len() ==> A::fits(#[trigger] vs[i])
}

impl<A: Repr> Repr for Vec<A> {
    open spec fn encode(x: Vec<A>) -> Val {
        Val::List(encode_all(x@))
    }

    open spec fn fits(v: Val) -> bool {
        match v {
            Val::List(vs) => all_fit::<A>(vs),
            _ => false,
        }
    }

    proof fn lemma_encode_fits(x: Vec<A>) {
        assert forall|i: int| 0 <= i < encode_all(x@).len() implies A::fits(
            #[trigger] encode_all(x@)[i],
        ) by {
            A::lemma_encode_fits(x@[i]);
        }
    }

    fn into_value(self) -> (v: Value) {
        let mut rest = self;
        let mut out: Vec<Value> = Vec::new();
        let ghost all = rest@;
        while rest.len() > 0
            invariant
                out.len() + rest.len() == all.len(),
                rest@ == all.subrange(out.len() as int, all.len() as int),
                forall|j: int| 0 <= j < out.len() ==> #[trigger] out@[j]@ == A::encode(all[j]),
            decreases rest.len(),
        {
            let x = rest.remove(0);
            out.push(x.into_value());
        }
        proof {
            lemma_views_len(out@);
            assert(views(out@) =~= encode_all(all));
        }
        Value::List(out)
    }

    fn from_value(v: Value) -> (r: Option<Vec<A>>) {
        match v {
            Value::List(vs) => {
                let ghost all = vs@;
                proof {
                    lemma_views_len(all);
                    assert(v@ == Val::List(views(all)));
                }
                let mut rest = vs;
                let mut out: Vec<A> = Vec::new();
                while rest.len() > 0
                    invariant
                        out.len() + rest.len() == all.len(),
                        rest@ == all.subrange(out.len() as int, all.len() as int),
                        views(all).len() == all.len(),
                        forall|j: int| 0 <= j < all.len() ==> #[trigger] views(all)[j] == all[j]@,
                        forall|j: int|
                            0 <= j < out.len() ==> #[trigger] A::encode(out@[j]) == all[j]@,
                        forall|j: int| 0 <= j < out.len() ==> A::fits(#[trigger] all[j]@),
                        v@ == Val::List(views(all)),
                    decreases rest.len(),
                {
                    assert(v@ == Val::List(views(all)));
                    let ghost before = rest@;
                    let x = rest.remove(0);
                    proof {
                        assert(x == before[0]);
                        assert(rest@ =~= all.subrange(out.len() + 1, all.len() as int));
                    }
                    match A::from_value(x) {
                        Some(a) => out.push(a),
                        None => {
                            proof {
                                let k = out.len() as int;
                                assert(rest@.len() + 1 + k == all.len());
                                assert(x == all[k]);
                                assert(views(all)[k] == all[k]@);
                                assert(!A::fits(views(all)[k]));
                                assert(v@ == Val::List(views(all)));
                                assert(0 <= k < views(all).len());
                                assert(!all_fit::<A>(views(all)));
                            }
                            return None;
                        },
                    }
                }
                proof {
                    assert(encode_all(out@) =~= views(all));
                    assert forall|i: int| 0 <= i < views(all).len() implies A::fits(
                        #[trigger] views(all)[i],
                    ) by {
                        assert(views(all)[i] == all[i]@);
                    }
                }
                Some(out)
            },
            _ => None,
        }
    }
}

impl<A: Repr> Repr for Option<A> {
    open spec fn encode(x: Option<A>) -> Val {
        match x {
            None => Val::Tag(0, Box::new(Val::Unit)),
            Some(a) => Val::Tag(1, Box::new(A::encode(a))),
        }
    }

    open spec fn fits(v: Val) -> bool {
        match v {
            Val::Tag(0, p) => *p is Unit,
            Val::Tag(1, p) => A::fits(*p),
            _ => false,
        }
    }

    proof fn lemma_encode_fits(x: Option<A>) {
        if let Some(a) = x {
            A::lemma_encode_fits(a);
        }
    }

    fn into_value(self) -> (v: Value) {
        match self {
            None => {
                let u = Value::Unit;
                assert(u@ == Val::Unit);
                Value::Tag(0, Box::new(u))
            },
            Some(a) => Value::Tag(1, Box::new(a.into_value())),
        }
    }

    fn from_value(v: Value) -> (r: Option<Option<A>>) {
        match v {
            Value::Tag(t, p) => {
                assert(v@ == Val::Tag(t, Box::new(p@)));
                if t == 0 {
                    match *p {
                        Value::Unit => {
                            assert(p@ == Val::Unit);
                            Some(None)
                        },
                        _ => None,
                    }
                } else if t == 1 {
                    match A::from_value(*p) {
                        Some(a) => Some(Some(a)),
                        None => None,
                    }
                } else {
                    None
                }
            },
            _ => None,
        }
    }
}

} // verus!
