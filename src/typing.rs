use vstd::prelude::*;

use crate::ast::{
    fits_expr, fits_program, fits_stmt, fits_type, lemma_fits_stmts, Expression,
    Literal, Program, Statement, Token, Type,
};
use crate::grammar::{run, Grammar, Limits, Transform};
use crate::lexical::{list_spec, string_spec, strip_spec, between_spec};
use crate::parser::{and_spec, apply_spec, left_spec, many_spec, or_spec, right_spec};
use crate::program::{
    bool_literal_spec, float_literal_spec, integer_literal_spec, reference_literal_spec, Rule,
};
use crate::repr::{all_fit, Repr};
use crate::value::Val;

verus! {

/// Whether every value that `g` yields under `lim` stands for a value of `T`.
pub open spec fn yields<T: Repr>(g: Grammar, lim: Limits) -> bool {
    forall|s: Seq<char>| #[trigger] run(g, s, lim) is Ok ==> T::fits(run(g, s, lim)->Ok_0.0)
}

pub proof fn lemma_yields_pure<T: Repr>(v: Val, lim: Limits)
    requires
        T::fits(v),
    ensures
        yields::<T>(Grammar::Pure(v), lim),
{
}

pub proof fn lemma_yields_fail<T: Repr>(reason: &'static str, lim: Limits)
    ensures
        yields::<T>(Grammar::Fail(reason), lim),
{
}

pub proof fn lemma_yields_char(c: char, lim: Limits)
    ensures
        yields::<char>(Grammar::Char(c), lim),
        yields::<char>(Grammar::AnyChar, lim),
{
}

pub proof fn lemma_yields_and<A: Repr, B: Repr>(a: Grammar, b: Grammar, lim: Limits)
    requires
        yields::<A>(a, lim),
        yields::<B>(b, lim),
    ensures
        yields::<(A, B)>(and_spec(a, b), lim),
{
    assert forall|s: Seq<char>| #[trigger] run(and_spec(a, b), s, lim) is Ok implies <(
        A,
        B,
    ) as Repr>::fits(run(and_spec(a, b), s, lim)->Ok_0.0) by {
        let ra = run(a, s, lim)->Ok_0.1;
        assert(run(a, s, lim) is Ok);
        assert(run(b, ra, lim) is Ok);
    }
}

pub proof fn lemma_yields_or<T: Repr>(a: Grammar, b: Grammar, lim: Limits)
    requires
        yields::<T>(a, lim),
        yields::<T>(b, lim),
    ensures
        yields::<T>(or_spec(a, b), lim),
{
    assert forall|s: Seq<char>| #[trigger] run(or_spec(a, b), s, lim) is Ok implies T::fits(
        run(or_spec(a, b), s, lim)->Ok_0.0,
    ) by {
        if run(a, s, lim) is Err {
            assert(run(b, s, lim) is Ok);
        }
    }
}

proof fn lemma_many_fits<T: Repr>(p: Grammar, s: Seq<char>, lim: Limits)
    requires
        yields::<T>(p, lim),
    ensures
        run(many_spec(p), s, lim) is Ok ==> <Vec<T> as Repr>::fits(run(many_spec(p), s, lim)->Ok_0.0),
    decreases s.len(),
{
    let g = many_spec(p);
    match run(p, s, lim) {
        Ok((v, rest)) => {
            if rest.len() < s.len() {
                lemma_many_fits::<T>(p, rest, lim);
                crate::laws::law_many_never_fails(p, rest, lim);
                let vs = run(g, rest, lim)->Ok_0.0->List_0;
                assert(T::fits(v));
                assert forall|i: int| 0 <= i < (seq![v] + vs).len() implies T::fits(
                    #[trigger] (seq![v] + vs)[i],
                ) by {
                    if i > 0 {
                        assert((seq![v] + vs)[i] == vs[i - 1]);
                    }
                }
            }
        },
        Err(_) => {},
    }
}

pub proof fn lemma_yields_many<T: Repr>(p: Grammar, lim: Limits)
    requires
        yields::<T>(p, lim),
    ensures
        yields::<Vec<T>>(many_spec(p), lim),
{
    assert forall|s: Seq<char>| #[trigger] run(many_spec(p), s, lim) is Ok implies <Vec<
        T,
    > as Repr>::fits(run(many_spec(p), s, lim)->Ok_0.0) by {
        lemma_many_fits::<T>(p, s, lim);
    }
}

pub proof fn lemma_yields_first<A: Repr, B: Repr>(g: Grammar, lim: Limits)
    requires
        yields::<(A, B)>(g, lim),
    ensures
        yields::<A>(apply_spec(g, Transform::First), lim),
{
    assert forall|s: Seq<char>| #[trigger] run(apply_spec(g, Transform::First), s, lim) is Ok implies A::fits(
        run(apply_spec(g, Transform::First), s, lim)->Ok_0.0,
    ) by {
        assert(run(g, s, lim) is Ok);
    }
}

pub proof fn lemma_yields_second<A: Repr, B: Repr>(g: Grammar, lim: Limits)
    requires
        yields::<(A, B)>(g, lim),
    ensures
        yields::<B>(apply_spec(g, Transform::Second), lim),
{
    assert forall|s: Seq<char>| #[trigger] run(apply_spec(g, Transform::Second), s, lim) is Ok implies B::fits(
        run(apply_spec(g, Transform::Second), s, lim)->Ok_0.0,
    ) by {
        assert(run(g, s, lim) is Ok);
    }
}

pub proof fn lemma_yields_left<A: Repr, B: Repr>(a: Grammar, b: Grammar, lim: Limits)
    requires
        yields::<A>(a, lim),
        yields::<B>(b, lim),
    ensures
        yields::<A>(left_spec(a, b), lim),
{
    lemma_yields_and::<A, B>(a, b, lim);
    lemma_yields_first::<A, B>(and_spec(a, b), lim);
}

pub proof fn lemma_yields_right<A: Repr, B: Repr>(a: Grammar, b: Grammar, lim: Limits)
    requires
        yields::<A>(a, lim),
        yields::<B>(b, lim),
    ensures
        yields::<B>(right_spec(a, b), lim),
{
    lemma_yields_and::<A, B>(a, b, lim);
    lemma_yields_second::<A, B>(and_spec(a, b), lim);
}

pub proof fn lemma_yields_flatten(g: Grammar, lim: Limits)
    ensures
        yields::<String>(apply_spec(g, Transform::Flatten), lim),
{
}

pub proof fn lemma_yields_is_tag(g: Grammar, k: u8, lim: Limits)
    ensures
        yields::<bool>(apply_spec(g, Transform::IsTag(k)), lim),
{
}

/// Wrapping values that fit `A` as variant `k` gives values that fit `B`.
pub open spec fn wraps<A: Repr, B: Repr>(k: u8) -> bool {
    forall|v: Val| A::fits(v) ==> #[trigger] B::fits(Val::Tag(k, Box::new(v)))
}

pub proof fn lemma_yields_wrap<A: Repr, B: Repr>(g: Grammar, k: u8, lim: Limits)
    requires
        yields::<A>(g, lim),
        wraps::<A, B>(k),
    ensures
        yields::<B>(apply_spec(g, Transform::Wrap(k)), lim),
{
    assert forall|s: Seq<char>| #[trigger] run(apply_spec(g, Transform::Wrap(k)), s, lim) is Ok implies B::fits(
        run(apply_spec(g, Transform::Wrap(k)), s, lim)->Ok_0.0,
    ) by {
        assert(run(g, s, lim) is Ok);
        let v = run(g, s, lim)->Ok_0.0;
        assert(A::fits(v));
        assert(B::fits(Val::Tag(k, Box::new(v))));
    }
}

pub proof fn lemma_yields_list(cs: Seq<char>, lim: Limits)
    ensures
        yields::<char>(list_spec(cs), lim),
    decreases cs.len(),
{
    if cs.len() == 0 {
        lemma_yields_fail::<char>(crate::lexical::NO_MEMBERS, lim);
    } else {
        lemma_yields_list(cs.subrange(0, cs.len() - 1), lim);
        lemma_yields_char(cs[cs.len() - 1], lim);
        lemma_yields_or::<char>(
            list_spec(cs.subrange(0, cs.len() - 1)),
            Grammar::Char(cs[cs.len() - 1]),
            lim,
        );
    }
}

pub proof fn lemma_yields_between<A: Repr, B: Repr, C: Repr>(
    a: Grammar,
    b: Grammar,
    c: Grammar,
    lim: Limits,
)
    requires
        yields::<A>(a, lim),
        yields::<B>(b, lim),
        yields::<C>(c, lim),
    ensures
        yields::<B>(between_spec(a, b, c), lim),
{
    lemma_yields_right::<A, B>(a, b, lim);
    lemma_yields_left::<B, C>(right_spec(a, b), c, lim);
}

pub proof fn lemma_yields_strip<T: Repr>(p: Grammar, lim: Limits)
    requires
        yields::<T>(p, lim),
    ensures
        yields::<T>(strip_spec(p), lim),
{
    let w = list_spec(crate::lexical::whitespace_chars());
    lemma_yields_list(crate::lexical::whitespace_chars(), lim);
    lemma_yields_many::<char>(w, lim);
    lemma_yields_between::<Vec<char>, T, Vec<char>>(many_spec(w), p, many_spec(w), lim);
}

pub proof fn lemma_yields_string(t: Seq<char>, lim: Limits)
    ensures
        yields::<String>(string_spec(t), lim),
        yields::<String>(crate::lexical::symbol_spec(t), lim),
{
    if t.len() > 0 {
        lemma_yields_flatten(
            and_spec(Grammar::Char(t[0]), string_spec(t.subrange(1, t.len() as int))),
            lim,
        );
    }
    lemma_yields_strip::<String>(string_spec(t), lim);
}

/// Whether each named rule yields values of its own type.
pub open spec fn rules_fit(lim: Limits) -> bool {
    &&& yields::<Type>(Grammar::Rule(Rule::Types), lim)
    &&& yields::<Expression>(Grammar::Rule(Rule::Expression), lim)
    &&& yields::<Statement>(Grammar::Rule(Rule::Statement), lim)
}

pub proof fn lemma_wraps()
    ensures
        wraps::<String, Type>(0),
        wraps::<Type, Type>(1),
        wraps::<Type, Option<Type>>(1),
        wraps::<String, Literal>(0),
        wraps::<String, Literal>(1),
        wraps::<bool, Literal>(2),
        wraps::<String, Literal>(3),
        wraps::<Literal, Expression>(1),
        wraps::<Vec<Statement>, Expression>(0),
        wraps::<(String, Option<Type>), Statement>(0),
        wraps::<(String, Expression), Statement>(1),
        wraps::<((String, Option<Type>), Expression), Statement>(2),
        wraps::<Expression, Statement>(3),
        wraps::<Vec<Statement>, Program>(0),
{
    assert forall|v: Val| <Vec<Statement> as Repr>::fits(v) implies #[trigger] fits_expr(
        Val::Tag(0, Box::new(v)),
    ) && fits_program(Val::Tag(0, Box::new(v))) by {
        let vs = v->List_0;
        lemma_fits_stmts(vs);
        assert(all_fit::<Statement>(vs));
        assert forall|i: int| 0 <= i < vs.len() implies fits_stmt(#[trigger] vs[i]) by {
            assert(<Statement as Repr>::fits(vs[i]));
        }
    }
    assert forall|v: Val| <Vec<Statement> as Repr>::fits(v) implies #[trigger] <Expression as Repr>::fits(
        Val::Tag(0, Box::new(v)),
    ) by {
        assert(fits_expr(Val::Tag(0, Box::new(v))));
    }
    assert forall|v: Val| <Vec<Statement> as Repr>::fits(v) implies #[trigger] <Program as Repr>::fits(
        Val::Tag(0, Box::new(v)),
    ) by {
        assert(fits_expr(Val::Tag(0, Box::new(v))));
    }
}

proof fn lemma_yields_keyword(text: Seq<char>, t: Token, lim: Limits)
    ensures
        yields::<Token>(crate::program::keyword_spec(text, t), lim),
{
    lemma_yields_string(text, lim);
    lemma_yields_pure::<Token>(<Token as Repr>::encode(t), lim);
    lemma_yields_right::<String, Token>(
        crate::lexical::symbol_spec(text),
        Grammar::Pure(<Token as Repr>::encode(t)),
        lim,
    );
}

proof fn lemma_yields_identifier(lim: Limits)
    ensures
        yields::<String>(crate::lexical::identifier_spec(), lim),
{
    let inner = and_spec(
        crate::lexical::letter_spec(),
        many_spec(crate::lexical::alphanumeric_spec()),
    );
    lemma_yields_flatten(inner, lim);
    lemma_yields_strip::<String>(apply_spec(inner, Transform::Flatten), lim);
}

proof fn lemma_yields_literal(lim: Limits)
    ensures
        yields::<Literal>(crate::program::literal_spec(), lim),
{
    lemma_wraps();
    let fl = crate::lexical::float_body_spec();
    let it = crate::lexical::integer_body_spec();
    lemma_yields_flatten(fl, lim);
    lemma_yields_strip::<String>(apply_spec(fl, Transform::Flatten), lim);
    lemma_yields_wrap::<String, Literal>(crate::lexical::float_spec(), 0, lim);
    lemma_yields_flatten(it, lim);
    lemma_yields_strip::<String>(apply_spec(it, Transform::Flatten), lim);
    lemma_yields_wrap::<String, Literal>(crate::lexical::integer_spec(), 1, lim);
    let keys = or_spec(
        crate::program::keyword_spec("true"@, Token::True),
        crate::program::keyword_spec("false"@, Token::False),
    );
    lemma_yields_is_tag(keys, 1, lim);
    lemma_yields_wrap::<bool, Literal>(apply_spec(keys, Transform::IsTag(1)), 2, lim);
    lemma_yields_identifier(lim);
    lemma_yields_wrap::<String, Literal>(crate::lexical::identifier_spec(), 3, lim);
    lemma_yields_or::<Literal>(float_literal_spec(), integer_literal_spec(), lim);
    lemma_yields_or::<Literal>(
        or_spec(float_literal_spec(), integer_literal_spec()),
        bool_literal_spec(),
        lim,
    );
    lemma_yields_or::<Literal>(
        or_spec(or_spec(float_literal_spec(), integer_literal_spec()), bool_literal_spec()),
        reference_literal_spec(),
        lim,
    );
}

proof fn lemma_yields_types_body(lim: Limits)
    requires
        rules_fit(lim),
    ensures
        yields::<Type>(crate::program::rule_grammar(Rule::Types), lim),
{
    lemma_wraps();
    lemma_yields_string("["@, lim);
    lemma_yields_string("]"@, lim);
    let inner = between_spec(
        crate::lexical::symbol_spec("["@),
        Grammar::Rule(Rule::Types),
        crate::lexical::symbol_spec("]"@),
    );
    lemma_yields_between::<String, Type, String>(
        crate::lexical::symbol_spec("["@),
        Grammar::Rule(Rule::Types),
        crate::lexical::symbol_spec("]"@),
        lim,
    );
    lemma_yields_wrap::<Type, Type>(inner, 1, lim);
    lemma_yields_identifier(lim);
    lemma_yields_wrap::<String, Type>(crate::lexical::identifier_spec(), 0, lim);
    lemma_yields_or::<Type>(crate::program::array_spec(), crate::program::atomic_spec(), lim);
}

proof fn lemma_yields_expression_body(lim: Limits)
    requires
        rules_fit(lim),
    ensures
        yields::<Expression>(crate::program::rule_grammar(Rule::Expression), lim),
{
    lemma_wraps();
    lemma_yields_literal(lim);
    lemma_yields_wrap::<Literal, Expression>(crate::program::literal_spec(), 1, lim);
    lemma_yields_string("{"@, lim);
    lemma_yields_string("}"@, lim);
    let semi = crate::program::keyword_spec(";"@, Token::Semicolon);
    lemma_yields_keyword(";"@, Token::Semicolon, lim);
    lemma_yields_left::<Statement, Token>(Grammar::Rule(Rule::Statement), semi, lim);
    let items = many_spec(left_spec(Grammar::Rule(Rule::Statement), semi));
    lemma_yields_many::<Statement>(left_spec(Grammar::Rule(Rule::Statement), semi), lim);
    lemma_yields_between::<String, Vec<Statement>, String>(
        crate::lexical::symbol_spec("{"@),
        items,
        crate::lexical::symbol_spec("}"@),
        lim,
    );
    lemma_yields_wrap::<Vec<Statement>, Expression>(
        between_spec(crate::lexical::symbol_spec("{"@), items, crate::lexical::symbol_spec("}"@)),
        0,
        lim,
    );
    lemma_yields_or::<Expression>(
        crate::program::literal_expr_spec(),
        crate::program::block_expr_spec(),
        lim,
    );
}

proof fn lemma_yields_annotation(lim: Limits)
    requires
        rules_fit(lim),
    ensures
        yields::<Option<Type>>(crate::program::annotation_spec(), lim),
{
    lemma_wraps();
    let colon = crate::program::keyword_spec(":"@, Token::Colon);
    lemma_yields_keyword(":"@, Token::Colon, lim);
    lemma_yields_right::<Token, Type>(colon, Grammar::Rule(Rule::Types), lim);
    lemma_yields_wrap::<Type, Option<Type>>(right_spec(colon, Grammar::Rule(Rule::Types)), 1, lim);
    lemma_yields_pure::<Option<Type>>(<Option<Type> as Repr>::encode(None), lim);
    lemma_yields_or::<Option<Type>>(
        apply_spec(right_spec(colon, Grammar::Rule(Rule::Types)), Transform::Wrap(1)),
        Grammar::Pure(<Option<Type> as Repr>::encode(None)),
        lim,
    );
}

proof fn lemma_yields_statement_body(lim: Limits)
    requires
        rules_fit(lim),
    ensures
        yields::<Statement>(crate::program::rule_grammar(Rule::Statement), lim),
{
    lemma_wraps();
    let let_kw = crate::program::keyword_spec("let"@, Token::Let);
    let eq_kw = crate::program::keyword_spec("="@, Token::Equals);
    let ident = crate::lexical::identifier_spec();
    let ann = crate::program::annotation_spec();
    let expr = Grammar::Rule(Rule::Expression);
    lemma_yields_keyword("let"@, Token::Let, lim);
    lemma_yields_keyword("="@, Token::Equals, lim);
    lemma_yields_identifier(lim);
    lemma_yields_annotation(lim);
    // let name [: type] = expression
    lemma_yields_right::<Token, String>(let_kw, ident, lim);
    lemma_yields_and::<String, Option<Type>>(right_spec(let_kw, ident), ann, lim);
    let head = and_spec(right_spec(let_kw, ident), ann);
    lemma_yields_left::<(String, Option<Type>), Token>(head, eq_kw, lim);
    lemma_yields_and::<(String, Option<Type>), Expression>(left_spec(head, eq_kw), expr, lim);
    lemma_yields_wrap::<((String, Option<Type>), Expression), Statement>(
        and_spec(left_spec(head, eq_kw), expr),
        2,
        lim,
    );
    // name = expression
    lemma_yields_left::<String, Token>(ident, eq_kw, lim);
    lemma_yields_and::<String, Expression>(left_spec(ident, eq_kw), expr, lim);
    lemma_yields_wrap::<(String, Expression), Statement>(
        and_spec(left_spec(ident, eq_kw), expr),
        1,
        lim,
    );
    // let name [: type]
    lemma_yields_wrap::<(String, Option<Type>), Statement>(head, 0, lim);
    let inst = crate::program::instantiate_spec();
    let asg = crate::program::assign_spec();
    let decl = crate::program::declare_spec();
    lemma_yields_or::<Statement>(inst, asg, lim);
    lemma_yields_or::<Statement>(or_spec(inst, asg), decl, lim);
    // an expression, or nothing
    lemma_yields_wrap::<Expression, Statement>(expr, 3, lim);
    lemma_yields_pure::<Statement>(<Statement as Repr>::encode(Statement::NoOp), lim);
    let var = crate::program::variable_spec();
    let es = crate::program::expression_stat_spec();
    let nop = crate::program::no_op_spec();
    lemma_yields_or::<Statement>(var, es, lim);
    lemma_yields_or::<Statement>(or_spec(var, es), nop, lim);
    lemma_yields_strip::<Statement>(or_spec(or_spec(var, es), nop), lim);
}

/// Each named rule yields values of its own type, under any limits.
pub proof fn lemma_rules_fit(lim: Limits)
    ensures
        rules_fit(lim),
    decreases lim.total(),
{
    assert forall|s: Seq<char>| #[trigger] run(Grammar::Rule(Rule::Types), s, lim) is Ok implies fits_type(
        run(Grammar::Rule(Rule::Types), s, lim)->Ok_0.0,
    ) by {
        let inner = lim.lower(Rule::Types, s.len());
        lemma_rules_fit(inner);
        lemma_yields_types_body(inner);
        assert(run(crate::program::rule_grammar(Rule::Types), s, inner) is Ok);
    }
    assert forall|s: Seq<char>| #[trigger] run(Grammar::Rule(Rule::Expression), s, lim) is Ok implies fits_expr(
        run(Grammar::Rule(Rule::Expression), s, lim)->Ok_0.0,
    ) by {
        let inner = lim.lower(Rule::Expression, s.len());
        lemma_rules_fit(inner);
        lemma_yields_expression_body(inner);
        assert(run(crate::program::rule_grammar(Rule::Expression), s, inner) is Ok);
    }
    assert forall|s: Seq<char>| #[trigger] run(Grammar::Rule(Rule::Statement), s, lim) is Ok implies fits_stmt(
        run(Grammar::Rule(Rule::Statement), s, lim)->Ok_0.0,
    ) by {
        let inner = lim.lower(Rule::Statement, s.len());
        lemma_rules_fit(inner);
        lemma_yields_statement_body(inner);
        assert(run(crate::program::rule_grammar(Rule::Statement), s, inner) is Ok);
    }
}

/// A whole program parses only to values that stand for a `Program`.
pub proof fn law_program_yields_programs(lim: Limits)
    ensures
        yields::<Program>(crate::program::program_spec(), lim),
{
    lemma_rules_fit(lim);
    lemma_wraps();
    let semi = crate::program::keyword_spec(";"@, Token::Semicolon);
    lemma_yields_keyword(";"@, Token::Semicolon, lim);
    lemma_yields_left::<Statement, Token>(Grammar::Rule(Rule::Statement), semi, lim);
    lemma_yields_many::<Statement>(left_spec(Grammar::Rule(Rule::Statement), semi), lim);
    lemma_yields_wrap::<Vec<Statement>, Program>(
        many_spec(left_spec(Grammar::Rule(Rule::Statement), semi)),
        0,
        lim,
    );
}

pub proof fn lemma_yields_cons<T: Repr>(g: Grammar, lim: Limits)
    requires
        yields::<(T, Vec<T>)>(g, lim),
    ensures
        yields::<Vec<T>>(apply_spec(g, Transform::Cons), lim),
{
    assert forall|s: Seq<char>| #[trigger] run(apply_spec(g, Transform::Cons), s, lim) is Ok implies <Vec<
        T,
    > as Repr>::fits(run(apply_spec(g, Transform::Cons), s, lim)->Ok_0.0) by {
        assert(run(g, s, lim) is Ok);
        let v = run(g, s, lim)->Ok_0.0;
        let h = *v->Pair_0;
        let vs = v->Pair_1->List_0;
        assert forall|i: int| 0 <= i < (seq![h] + vs).len() implies T::fits(
            #[trigger] (seq![h] + vs)[i],
        ) by {
            if i > 0 {
                assert((seq![h] + vs)[i] == vs[i - 1]);
            }
        }
    }
}

/// Whether `g` yields values of `T` under any limits.
pub open spec fn always_yields<T: Repr>(g: Grammar) -> bool {
    forall|lim: Limits| #[trigger] yields::<T>(g, lim)
}

pub proof fn lemma_always_cons<T: Repr>(g: Grammar)
    requires
        always_yields::<(T, Vec<T>)>(g),
    ensures
        always_yields::<Vec<T>>(apply_spec(g, Transform::Cons)),
{
    assert forall|lim: Limits| #[trigger] yields::<Vec<T>>(apply_spec(g, Transform::Cons), lim) by {
        lemma_yields_cons::<T>(g, lim);
    }
}

pub proof fn lemma_always_flatten(g: Grammar)
    ensures
        always_yields::<String>(apply_spec(g, Transform::Flatten)),
{
    assert forall|lim: Limits| #[trigger] yields::<String>(apply_spec(g, Transform::Flatten), lim) by {
        lemma_yields_flatten(g, lim);
    }
}

pub proof fn lemma_always_is_tag(g: Grammar, k: u8)
    ensures
        always_yields::<bool>(apply_spec(g, Transform::IsTag(k))),
{
    assert forall|lim: Limits| #[trigger] yields::<bool>(apply_spec(g, Transform::IsTag(k)), lim) by {
        lemma_yields_is_tag(g, k, lim);
    }
}

pub proof fn lemma_always_wrap<A: Repr, B: Repr>(g: Grammar, k: u8)
    requires
        always_yields::<A>(g),
        wraps::<A, B>(k),
    ensures
        always_yields::<B>(apply_spec(g, Transform::Wrap(k))),
{
    assert forall|lim: Limits| #[trigger] yields::<B>(apply_spec(g, Transform::Wrap(k)), lim) by {
        lemma_yields_wrap::<A, B>(g, k, lim);
    }
}

pub proof fn lemma_always_first<A: Repr, B: Repr>(g: Grammar)
    requires
        always_yields::<(A, B)>(g),
    ensures
        always_yields::<A>(apply_spec(g, Transform::First)),
{
    assert forall|lim: Limits| #[trigger] yields::<A>(apply_spec(g, Transform::First), lim) by {
        lemma_yields_first::<A, B>(g, lim);
    }
}

pub proof fn lemma_always_second<A: Repr, B: Repr>(g: Grammar)
    requires
        always_yields::<(A, B)>(g),
    ensures
        always_yields::<B>(apply_spec(g, Transform::Second)),
{
    assert forall|lim: Limits| #[trigger] yields::<B>(apply_spec(g, Transform::Second), lim) by {
        lemma_yields_second::<A, B>(g, lim);
    }
}

pub proof fn lemma_always_and<A: Repr, B: Repr>(a: Grammar, b: Grammar)
    requires
        always_yields::<A>(a),
        always_yields::<B>(b),
    ensures
        always_yields::<(A, B)>(and_spec(a, b)),
{
    assert forall|lim: Limits| #[trigger] yields::<(A, B)>(and_spec(a, b), lim) by {
        lemma_yields_and::<A, B>(a, b, lim);
    }
}

pub proof fn lemma_always_or<T: Repr>(a: Grammar, b: Grammar)
    requires
        always_yields::<T>(a),
        always_yields::<T>(b),
    ensures
        always_yields::<T>(or_spec(a, b)),
{
    assert forall|lim: Limits| #[trigger] yields::<T>(or_spec(a, b), lim) by {
        lemma_yields_or::<T>(a, b, lim);
    }
}

pub proof fn lemma_always_many<T: Repr>(p: Grammar)
    requires
        always_yields::<T>(p),
    ensures
        always_yields::<Vec<T>>(many_spec(p)),
{
    assert forall|lim: Limits| #[trigger] yields::<Vec<T>>(many_spec(p), lim) by {
        lemma_yields_many::<T>(p, lim);
    }
}

pub proof fn lemma_always_basic<T: Repr>(v: Val, reason: &'static str, c: char)
    requires
        T::fits(v),
    ensures
        always_yields::<T>(Grammar::Pure(v)),
        always_yields::<T>(Grammar::Fail(reason)),
        always_yields::<char>(Grammar::Char(c)),
        always_yields::<char>(Grammar::AnyChar),
{
    assert forall|lim: Limits| #[trigger] yields::<T>(Grammar::Pure(v), lim) by {
        lemma_yields_pure::<T>(v, lim);
    }
    assert forall|lim: Limits| #[trigger] yields::<T>(Grammar::Fail(reason), lim) by {
        lemma_yields_fail::<T>(reason, lim);
    }
    assert forall|lim: Limits| #[trigger] yields::<char>(Grammar::Char(c), lim) by {
        lemma_yields_char(c, lim);
    }
}

pub proof fn lemma_always_rules()
    ensures
        always_yields::<Type>(Grammar::Rule(Rule::Types)),
        always_yields::<Expression>(Grammar::Rule(Rule::Expression)),
        always_yields::<Statement>(Grammar::Rule(Rule::Statement)),
{
    assert forall|lim: Limits| #[trigger] yields::<Type>(Grammar::Rule(Rule::Types), lim) by {
        lemma_rules_fit(lim);
    }
    assert forall|lim: Limits| #[trigger] yields::<Expression>(Grammar::Rule(Rule::Expression), lim) by {
        lemma_rules_fit(lim);
    }
    assert forall|lim: Limits| #[trigger] yields::<Statement>(Grammar::Rule(Rule::Statement), lim) by {
        lemma_rules_fit(lim);
    }
}

pub proof fn lemma_always_fail<T: Repr>(reason: &'static str)
    ensures
        always_yields::<T>(Grammar::Fail(reason)),
{
    assert forall|lim: Limits| #[trigger] yields::<T>(Grammar::Fail(reason), lim) by {
        lemma_yields_fail::<T>(reason, lim);
    }
}

} // verus!
