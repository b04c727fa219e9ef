use std::marker::PhantomData;
use vstd::prelude::*;

use crate::grammar::{parse_spec, run, run_node, Budget, Grammar, Node, Outcome, Transform, CHARACTER_MISMATCH};
use crate::program::Rule;
use crate::repr::Repr;
use crate::typing::{
    always_yields, lemma_always_and, lemma_always_basic, lemma_always_cons, lemma_always_first,
    lemma_always_flatten, lemma_always_many, lemma_always_or, lemma_always_second,
};
use vstd::string::StrSliceExecFns;

verus! {

/// A parser that yields values of type `T`: a grammar tree, run on demand.
/// It is well formed when its tree yields only values that stand for a `T`.
pub struct Parser<T> {
    pub node: Node,
    pub marker: PhantomData<T>,
}

impl<T> View for Parser<T> {
    type V = Grammar;

    open spec fn view(&self) -> Grammar {
        self.node@
    }
}

/// Whether the typed result `r` is what the outcome `o` gives for type `T`:
/// the same failure, or a value standing for the outcome's value and the
/// same rest of the input.
pub open spec fn typed_agrees<T: Repr>(r: Result<(T, &str), &'static str>, o: Outcome) -> bool {
    match o {
        Ok((v, rest)) => {
            &&& r is Ok
            &&& T::encode(r->Ok_0.0) == v
            &&& r->Ok_0.1@ == rest
        },
        Err(e) => r == Err::<(T, &str), &'static str>(e),
    }
}

pub open spec fn and_spec(a: Grammar, b: Grammar) -> Grammar {
    Grammar::And(Box::new(a), Box::new(b))
}

pub open spec fn or_spec(a: Grammar, b: Grammar) -> Grammar {
    Grammar::Or(Box::new(a), Box::new(b))
}

pub open spec fn apply_spec(p: Grammar, t: Transform) -> Grammar {
    Grammar::Apply(Box::new(p), t)
}

pub open spec fn many_spec(p: Grammar) -> Grammar {
    Grammar::Many(Box::new(p))
}

pub open spec fn left_spec(a: Grammar, b: Grammar) -> Grammar {
    apply_spec(and_spec(a, b), Transform::First)
}

pub open spec fn right_spec(a: Grammar, b: Grammar) -> Grammar {
    apply_spec(and_spec(a, b), Transform::Second)
}

pub open spec fn some_spec(p: Grammar) -> Grammar {
    apply_spec(and_spec(p, many_spec(p)), Transform::Cons)
}

impl<T: Repr> Parser<T> {
    /// Whether the tree yields only values that stand for a `T`.
    pub open spec fn wf(&self) -> bool {
        always_yields::<T>(self@)
    }

    /// The parser that runs the grammar tree `node`.
    pub fn new(node: Node) -> (r: Parser<T>)
        requires
            always_yields::<T>(node@),
        ensures
            r@ == node@,
            r.wf(),
    {
        Parser { node, marker: PhantomData }
    }

    /// A parser that builds the body of rule `rule` each time it runs, so
    /// that rules can refer to themselves and to each other.
    pub fn lazy(rule: Rule) -> (r: Parser<T>)
        requires
            always_yields::<T>(Grammar::Rule(rule)),
        ensures
            r@ == Grammar::Rule(rule),
            r.wf(),
    {
        Parser::new(Node::Rule(rule))
    }

    /// This parser, with the transform applied to what it yields.
    pub fn apply<U: Repr>(self, t: Transform) -> (r: Parser<U>)
        requires
            always_yields::<U>(apply_spec(self@, t)),
        ensures
            r@ == apply_spec(self@, t),
            r.wf(),
    {
        Parser::new(Node::Apply(Box::new(self.node), t))
    }

    /// Consumes nothing and fails with `reason`.
    pub fn empty(reason: &'static str) -> (r: Parser<T>)
        ensures
            r@ == Grammar::Fail(reason),
            r.wf(),
    {
        proof {
            crate::typing::lemma_always_fail::<T>(reason);
        }
        Parser::new(Node::Fail(reason))
    }

    /// Consumes nothing and yields `a`.
    pub fn pure(a: T) -> (r: Parser<T>)
        ensures
            r@ == Grammar::Pure(T::encode(a)),
            r.wf(),
    {
        proof {
            T::lemma_encode_fits(a);
            lemma_always_basic::<T>(T::encode(a), CHARACTER_MISMATCH, ' ');
        }
        let v = a.into_value();
        Parser::new(Node::Pure(v))
    }

    /// This parser zero or more times, as long as it succeeds and consumes
    /// input.
    pub fn many(self) -> (r: Parser<Vec<T>>)
        requires
            self.wf(),
        ensures
            r@ == many_spec(self@),
            r.wf(),
    {
        proof {
            lemma_always_many::<T>(self@);
        }
        Parser::new(Node::Many(Box::new(self.node)))
    }

    /// This parser one or more times.
    pub fn some(self) -> (r: Parser<Vec<T>>)
        requires
            self.wf(),
        ensures
            r@ == some_spec(self@),
            r.wf(),
    {
        let again = self.clone();
        let both = self.and(again.many());
        proof {
            lemma_always_cons::<T>(both@);
        }
        both.apply(Transform::Cons)
    }

    /// This parser, then `other` on what it left; both values as a pair.
    pub fn and<U: Repr>(self, other: Parser<U>) -> (r: Parser<(T, U)>)
        requires
            self.wf(),
            other.wf(),
        ensures
            r@ == and_spec(self@, other@),
            r.wf(),
    {
        proof {
            lemma_always_and::<T, U>(self@, other@);
        }
        Parser::new(Node::And(Box::new(self.node), Box::new(other.node)))
    }

    /// This parser, then `other`; the value of this one.
    pub fn left<U: Repr>(self, other: Parser<U>) -> (r: Parser<T>)
        requires
            self.wf(),
            other.wf(),
        ensures
            r@ == left_spec(self@, other@),
            r.wf(),
    {
        let both = self.and(other);
        proof {
            lemma_always_first::<T, U>(both@);
        }
        both.apply(Transform::First)
    }

    /// This parser, then `other`; the value of `other`.
    pub fn right<U: Repr>(self, other: Parser<U>) -> (r: Parser<U>)
        requires
            self.wf(),
            other.wf(),
        ensures
            r@ == right_spec(self@, other@),
            r.wf(),
    {
        let both = self.and(other);
        proof {
            lemma_always_second::<T, U>(both@);
        }
        both.apply(Transform::Second)
    }

    /// This parser; where it fails, `other` on the same input.
    pub fn or(self, other: Parser<T>) -> (r: Parser<T>)
        requires
            self.wf(),
            other.wf(),
        ensures
            r@ == or_spec(self@, other@),
            r.wf(),
    {
        proof {
            lemma_always_or::<T>(self@, other@);
        }
        Parser::new(Node::Or(Box::new(self.node), Box::new(other.node)))
    }

    /// Runs the parser on `input`: the value and the rest of the input, or
    /// the reason for failure.
    pub fn parse<'a>(&self, input: &'a str) -> (r: Result<(T, &'a str), &'static str>)
        requires
            self.wf(),
            input@.len() < usize::MAX,
        ensures
            typed_agrees(r, parse_spec(self@, input@)),
    {
        let n = input.unicode_len();
        let lim = Budget::start(n);
        proof {
            assert(crate::typing::yields::<T>(self@, lim@));
            assert(run(self@, input@, lim@) is Ok ==> T::fits(run(self@, input@, lim@)->Ok_0.0));
        }
        match run_node(&self.node, input, lim) {
            Ok((v, rest)) => Ok((T::from_value(v).unwrap(), rest)),
            Err(e) => Err(e),
        }
    }
}

impl<T> Clone for Parser<T> {
    fn clone(&self) -> (r: Parser<T>)
        ensures
            r@ == self@,
    {
        Parser { node: self.node.duplicate(), marker: PhantomData }
    }
}

/// A parser whose values are passed through a function once parsed.
pub struct Mapped<T, U, F> {
    pub inner: Parser<T>,
    pub func: F,
    pub marker: PhantomData<U>,
}

impl<T: Repr> Parser<T> {
    /// This parser, with `func` applied to each value it yields.
    pub fn map<U, F: Fn(T) -> U>(self, func: F) -> (r: Mapped<T, U, F>)
        ensures
            r.inner@ == self@,
            r.func == func,
    {
        Mapped { inner: self, func, marker: PhantomData }
    }
}

impl<T: Repr, U, F: Fn(T) -> U> Mapped<T, U, F> {
    /// Runs the inner parser on `input` and applies the function to its
    /// value.
    pub fn parse<'a>(&self, input: &'a str) -> (r: Result<(U, &'a str), &'static str>)
        requires
            self.inner.wf(),
            input@.len() < usize::MAX,
            forall|x: T| #[trigger] self.func.requires((x,)),
        ensures
            match parse_spec(self.inner@, input@) {
                Ok((v, rest)) => {
                    &&& r is Ok
                    &&& r->Ok_0.1@ == rest
                    &&& exists|x: T| T::encode(x) == v && self.func.ensures((x,), r->Ok_0.0)
                },
                Err(e) => r == Err::<(U, &str), &'static str>(e),
            },
    {
        match self.inner.parse(input) {
            Ok((x, rest)) => {
                let ghost gx = x;
                let u = (self.func)(x);
                Ok((u, rest))
            },
            Err(e) => Err(e),
        }
    }
}

impl Parser<Vec<char>> {
    /// The characters as one string.
    pub fn qualify(self) -> (r: Parser<String>)
        requires
            self.wf(),
        ensures
            r@ == apply_spec(self@, Transform::Flatten),
            r.wf(),
    {
        proof {
            lemma_always_flatten(self@);
        }
        self.apply(Transform::Flatten)
    }
}

} // verus!
