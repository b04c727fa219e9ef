use vstd::prelude::*;

use crate::grammar::{Grammar, Node, Transform};
use crate::parser::{and_spec, apply_spec, left_spec, many_spec, or_spec, right_spec, some_spec, Parser};
use crate::repr::{encode_all, Repr};
use crate::typing::{lemma_always_basic, lemma_always_cons, lemma_always_flatten};
use crate::value::{Val, Value};
use vstd::string::StrSliceExecFns;

verus! {

pub const NO_MEMBERS: &'static str = "List parser has no members";

/// Any one character.
pub fn any() -> (r: Parser<char>)
    ensures
        r@ == Grammar::AnyChar,
        r.wf(),
{
    proof {
        lemma_always_basic::<char>(Val::Char(' '), NO_MEMBERS, ' ');
    }
    Parser::new(Node::AnyChar)
}

/// Exactly the character `expected`.
pub fn char(expected: char) -> (r: Parser<char>)
    ensures
        r@ == Grammar::Char(expected),
        r.wf(),
{
    proof {
        lemma_always_basic::<char>(Val::Char(' '), NO_MEMBERS, expected);
    }
    Parser::new(Node::Char(expected))
}

/// One character of `cs`: the alternatives tried from the first member on.
pub open spec fn list_spec(cs: Seq<char>) -> Grammar
    decreases cs.len(),
{
    if cs.len() == 0 {
        Grammar::Fail(NO_MEMBERS)
    } else {
        or_spec(list_spec(cs.subrange(0, cs.len() - 1)), Grammar::Char(cs[cs.len() - 1]))
    }
}

/// Any one character of `allowed`; fails with no members.
pub fn list(allowed: &[char]) -> (r: Parser<char>)
    ensures
        r@ == list_spec(allowed@),
        r.wf(),
{
    let mut acc: Parser<char> = Parser::empty(NO_MEMBERS);
    let mut i: usize = 0;
    proof {
        assert(allowed@.subrange(0, 0) =~= Seq::<char>::empty());
    }
    while i < allowed.len()
        invariant
            i <= allowed@.len(),
            acc@ == list_spec(allowed@.subrange(0, i as int)),
            acc.wf(),
        decreases allowed.len() - i,
    {
        proof {
            assert(allowed@.subrange(0, i + 1).subrange(0, i as int) =~= allowed@.subrange(0, i as int));
        }
        acc = acc.or(char(allowed[i]));
        i = i + 1;
    }
    proof {
        assert(allowed@.subrange(0, i as int) =~= allowed@);
    }
    acc
}

pub open spec fn whitespace_chars() -> Seq<char> {
    seq![' ', '\n', '\t', '\r']
}

pub open spec fn lowercase_chars() -> Seq<char> {
    seq!['a', 'b', 'c', 'd', 'e', 'f', 'g', 'h', 'i', 'j', 'k', 'l', 'm', 'n', 'o', 'p', 'q', 'r', 's', 't', 'u', 'v', 'w', 'x', 'y', 'z']
}

pub open spec fn uppercase_chars() -> Seq<char> {
    seq!['A', 'B', 'C', 'D', 'E', 'F', 'G', 'H', 'I', 'J', 'K', 'L', 'M', 'N', 'O', 'P', 'Q', 'R', 'S', 'T', 'U', 'V', 'W', 'X', 'Y', 'Z']
}

pub open spec fn digit_chars() -> Seq<char> {
    seq!['0', '1', '2', '3', '4', '5', '6', '7', '8', '9']
}

/// A space, newline, tab or carriage return.
pub fn whitespace() -> (r: Parser<char>)
    ensures
        r@ == list_spec(whitespace_chars()),
        r.wf(),
{
    let cs = [' ', '\n', '\t', '\r'];
    proof {
        assert(cs@ =~= whitespace_chars());
    }
    list(&cs)
}

pub fn lowercase() -> (r: Parser<char>)
    ensures
        r@ == list_spec(lowercase_chars()),
        r.wf(),
{
    let cs = [
        'a', 'b', 'c', 'd', 'e', 'f', 'g', 'h', 'i', 'j', 'k', 'l', 'm', 'n', 'o', 'p', 'q', 'r',
        's', 't', 'u', 'v', 'w', 'x', 'y', 'z',
    ];
    proof {
        assert(cs@ =~= lowercase_chars());
    }
    list(&cs)
}

pub fn uppercase() -> (r: Parser<char>)
    ensures
        r@ == list_spec(uppercase_chars()),
        r.wf(),
{
    let cs = [
        'A', 'B', 'C', 'D', 'E', 'F', 'G', 'H', 'I', 'J', 'K', 'L', 'M', 'N', 'O', 'P', 'Q', 'R',
        'S', 'T', 'U', 'V', 'W', 'X', 'Y', 'Z',
    ];
    proof {
        assert(cs@ =~= uppercase_chars());
    }
    list(&cs)
}

pub fn digit() -> (r: Parser<char>)
    ensures
        r@ == list_spec(digit_chars()),
        r.wf(),
{
    let cs = ['0', '1', '2', '3', '4', '5', '6', '7', '8', '9'];
    proof {
        assert(cs@ =~= digit_chars());
    }
    list(&cs)
}

pub open spec fn letter_spec() -> Grammar {
    or_spec(
        or_spec(list_spec(lowercase_chars()), list_spec(uppercase_chars())),
        Grammar::Char('_'),
    )
}

/// An ASCII letter or an underscore.
pub fn letter() -> (r: Parser<char>)
    ensures
        r@ == letter_spec(),
        r.wf(),
{
    lowercase().or(uppercase()).or(char('_'))
}

pub open spec fn alphanumeric_spec() -> Grammar {
    or_spec(letter_spec(), list_spec(digit_chars()))
}

/// A letter or an ASCII digit.
pub fn alphanumeric() -> (r: Parser<char>)
    ensures
        r@ == alphanumeric_spec(),
        r.wf(),
{
    letter().or(digit())
}

pub open spec fn between_spec(a: Grammar, b: Grammar, c: Grammar) -> Grammar {
    left_spec(right_spec(a, b), c)
}

/// `a`, `b` and `c` in turn; the value of `b`.
pub fn between<T: Repr, U: Repr, P: Repr>(a: Parser<T>, b: Parser<U>, c: Parser<P>) -> (r: Parser<U>)
    requires
        a.wf(),
        b.wf(),
        c.wf(),
    ensures
        r@ == between_spec(a@, b@, c@),
        r.wf(),
{
    a.right(b).left(c)
}

/// `b`; where it fails, `a` without consuming input.
pub fn otherwise<T: Repr>(b: Parser<T>, a: T) -> (r: Parser<T>)
    requires
        b.wf(),
    ensures
        r@ == or_spec(b@, Grammar::Pure(T::encode(a))),
        r.wf(),
{
    b.or(Parser::pure(a))
}

pub open spec fn delimited_spec(a: Grammar, sep: Grammar) -> Grammar {
    or_spec(
        apply_spec(and_spec(a, many_spec(right_spec(sep, a))), Transform::Cons),
        Grammar::Pure(Val::List(Seq::empty())),
    )
}

/// Zero or more `a`, separated by `sep`.
pub fn delimited<T: Repr, U: Repr>(a: Parser<T>, sep: Parser<U>) -> (r: Parser<Vec<T>>)
    requires
        a.wf(),
        sep.wf(),
    ensures
        r@ == delimited_spec(a@, sep@),
        r.wf(),
{
    let again = a.clone();
    let both = a.and(sep.right(again).many());
    proof {
        lemma_always_cons::<T>(both@);
    }
    let items: Parser<Vec<T>> = both.apply(Transform::Cons);
    let none: Vec<T> = Vec::new();
    let r = otherwise(items, none);
    proof {
        assert(encode_all(none@) =~= Seq::<Val>::empty());
    }
    r
}

pub open spec fn strip_spec(a: Grammar) -> Grammar {
    between_spec(
        many_spec(list_spec(whitespace_chars())),
        a,
        many_spec(list_spec(whitespace_chars())),
    )
}

/// `a`, with the whitespace around it consumed.
pub fn strip<T: Repr>(a: Parser<T>) -> (r: Parser<T>)
    requires
        a.wf(),
    ensures
        r@ == strip_spec(a@),
        r.wf(),
{
    between(whitespace().many(), a, whitespace().many())
}

/// Exactly the characters of `t`, in order; their text.
pub open spec fn string_spec(t: Seq<char>) -> Grammar
    decreases t.len(),
{
    if t.len() == 0 {
        Grammar::Pure(Val::Text(Seq::empty()))
    } else {
        apply_spec(
            and_spec(Grammar::Char(t[0]), string_spec(t.subrange(1, t.len() as int))),
            Transform::Flatten,
        )
    }
}

/// Exactly the characters of `input`, in order; their text.
pub fn string(input: &str) -> (r: Parser<String>)
    ensures
        r@ == string_spec(input@),
        r.wf(),
{
    let n = input.unicode_len();
    let empty = Value::Text(String::new());
    assert(empty@ == Val::Text(Seq::empty()));
    proof {
        lemma_always_basic::<String>(Val::Text(Seq::empty()), NO_MEMBERS, ' ');
    }
    let mut acc: Parser<String> = Parser::new(Node::Pure(empty));
    let mut i: usize = n;
    proof {
        assert(input@.subrange(n as int, n as int) =~= Seq::<char>::empty());
    }
    while i > 0
        invariant
            i <= n,
            n == input@.len(),
            acc@ == string_spec(input@.subrange(i as int, n as int)),
            acc.wf(),
        decreases i,
    {
        let c = input.get_char(i - 1);
        proof {
            let t = input@.subrange(i - 1, n as int);
            assert(t.subrange(1, t.len() as int) =~= input@.subrange(i as int, n as int));
            assert(t[0] == c);
        }
        let both = char(c).and(acc);
        proof {
            lemma_always_flatten(both@);
        }
        acc = both.apply(Transform::Flatten);
        i = i - 1;
    }
    proof {
        assert(input@.subrange(0, n as int) =~= input@);
    }
    acc
}

pub open spec fn identifier_spec() -> Grammar {
    strip_spec(
        apply_spec(and_spec(letter_spec(), many_spec(alphanumeric_spec())), Transform::Flatten),
    )
}

/// A letter and then letters or digits, with the whitespace around them.
pub fn identifier() -> (r: Parser<String>)
    ensures
        r@ == identifier_spec(),
        r.wf(),
{
    let both = letter().and(alphanumeric().many());
    proof {
        lemma_always_flatten(both@);
    }
    strip(both.apply(Transform::Flatten))
}

pub open spec fn symbol_spec(t: Seq<char>) -> Grammar {
    strip_spec(string_spec(t))
}

/// The text `a`, with the whitespace around it.
pub fn symbol(a: &str) -> (r: Parser<String>)
    ensures
        r@ == symbol_spec(a@),
        r.wf(),
{
    strip(string(a))
}

/// `a` between parentheses.
pub fn tuple<T: Repr>(a: Parser<T>) -> (r: Parser<T>)
    requires
        a.wf(),
    ensures
        r@ == between_spec(symbol_spec("("@), a@, symbol_spec(")"@)),
        r.wf(),
{
    between(symbol("("), a, symbol(")"))
}

/// `a` between square brackets.
pub fn set<T: Repr>(a: Parser<T>) -> (r: Parser<T>)
    requires
        a.wf(),
    ensures
        r@ == between_spec(symbol_spec("["@), a@, symbol_spec("]"@)),
        r.wf(),
{
    between(symbol("["), a, symbol("]"))
}

/// `a` between braces.
pub fn block<T: Repr>(a: Parser<T>) -> (r: Parser<T>)
    requires
        a.wf(),
    ensures
        r@ == between_spec(symbol_spec("{"@), a@, symbol_spec("}"@)),
        r.wf(),
{
    between(symbol("{"), a, symbol("}"))
}

/// A full stop, with the whitespace around it.
pub fn dot() -> (r: Parser<String>)
    ensures
        r@ == symbol_spec("."@),
        r.wf(),
{
    symbol(".")
}

pub open spec fn integer_spec() -> Grammar {
    strip_spec(apply_spec(integer_body_spec(), Transform::Flatten))
}

pub open spec fn integer_body_spec() -> Grammar {
    some_spec(list_spec(digit_chars()))
}

/// One or more digits, as text.
pub fn integer() -> (r: Parser<String>)
    ensures
        r@ == integer_spec(),
        r.wf(),
{
    strip(digit().some().qualify())
}

pub open spec fn float_spec() -> Grammar {
    strip_spec(apply_spec(float_body_spec(), Transform::Flatten))
}

pub open spec fn float_body_spec() -> Grammar {
    let digits = list_spec(digit_chars());
    left_spec(
        and_spec(
            and_spec(apply_spec(some_spec(digits), Transform::Flatten), symbol_spec("."@)),
            apply_spec(many_spec(digits), Transform::Flatten),
        ),
        many_spec(symbol_spec("f"@)),
    )
}

/// Digits, a full stop and more digits, then any number of `f`; the digits
/// and the stop as text.
pub fn float() -> (r: Parser<String>)
    ensures
        r@ == float_spec(),
        r.wf(),
{
    let body = digit().some().qualify().and(dot()).and(digit().many().qualify()).left(
        symbol("f").many(),
    );
    proof {
        lemma_always_flatten(body@);
    }
    strip(body.apply(Transform::Flatten))
}

} // verus!
