use vstd::prelude::*;

use crate::ast::{Expression, Literal, Program, Statement, Token, Type};
use crate::grammar::{Grammar, Node, Transform};
use crate::lexical::{
    between_spec, block, float, float_spec, identifier, identifier_spec, integer, integer_spec,
    otherwise, strip, strip_spec, symbol, symbol_spec,
};
use crate::parser::{and_spec, apply_spec, left_spec, many_spec, or_spec, right_spec, Parser};
use crate::repr::Repr;
use crate::typing::{lemma_always_is_tag, lemma_always_rules, lemma_always_wrap, lemma_wraps, wraps};

verus! {

/// The rules of the statement language that refer to themselves, directly
/// or through each other.
#[derive(Clone, Copy, PartialEq, Eq, Debug)]
pub enum Rule {
    Types,
    Expression,
    Statement,
}

/// `p`, with its values wrapped as variant `k` of `B`.
fn wrap<A: Repr, B: Repr>(p: Parser<A>, k: u8) -> (r: Parser<B>)
    requires
        p.wf(),
        wraps::<A, B>(k),
    ensures
        r@ == apply_spec(p@, Transform::Wrap(k)),
        r.wf(),
{
    proof {
        lemma_always_wrap::<A, B>(p@, k);
    }
    p.apply(Transform::Wrap(k))
}

/// The keyword or punctuation `text`, yielding `t`.
pub open spec fn keyword_spec(text: Seq<char>, t: Token) -> Grammar {
    right_spec(symbol_spec(text), Grammar::Pure(<Token as Repr>::encode(t)))
}

pub fn let_key() -> (r: Parser<Token>)
    ensures
        r@ == keyword_spec("let"@, Token::Let),
        r.wf(),
{
    symbol("let").right(Parser::pure(Token::Let))
}

pub fn true_key() -> (r: Parser<Token>)
    ensures
        r@ == keyword_spec("true"@, Token::True),
        r.wf(),
{
    symbol("true").right(Parser::pure(Token::True))
}

pub fn false_key() -> (r: Parser<Token>)
    ensures
        r@ == keyword_spec("false"@, Token::False),
        r.wf(),
{
    symbol("false").right(Parser::pure(Token::False))
}

pub fn equals() -> (r: Parser<Token>)
    ensures
        r@ == keyword_spec("="@, Token::Equals),
        r.wf(),
{
    symbol("=").right(Parser::pure(Token::Equals))
}

pub fn colon() -> (r: Parser<Token>)
    ensures
        r@ == keyword_spec(":"@, Token::Colon),
        r.wf(),
{
    symbol(":").right(Parser::pure(Token::Colon))
}

pub fn semicolon() -> (r: Parser<Token>)
    ensures
        r@ == keyword_spec(";"@, Token::Semicolon),
        r.wf(),
{
    symbol(";").right(Parser::pure(Token::Semicolon))
}

pub open spec fn atomic_spec() -> Grammar {
    apply_spec(identifier_spec(), Transform::Wrap(0))
}

/// A named type.
pub fn atomic() -> (r: Parser<Type>)
    ensures
        r@ == atomic_spec(),
        r.wf(),
{
    proof {
        lemma_wraps();
    }
    wrap::<String, Type>(identifier(), 0)
}

pub open spec fn array_spec() -> Grammar {
    apply_spec(
        between_spec(symbol_spec("["@), Grammar::Rule(Rule::Types), symbol_spec("]"@)),
        Transform::Wrap(1),
    )
}

/// A type between square brackets: an array of it.
pub fn array() -> (r: Parser<Type>)
    ensures
        r@ == array_spec(),
        r.wf(),
{
    proof {
        lemma_wraps();
    }
    wrap::<Type, Type>(crate::lexical::set(types()), 1)
}

/// Any type; an array is tried first.
pub fn types() -> (r: Parser<Type>)
    ensures
        r@ == Grammar::Rule(Rule::Types),
        r.wf(),
{
    proof {
        lemma_always_rules();
    }
    Parser::lazy(Rule::Types)
}

pub open spec fn float_literal_spec() -> Grammar {
    apply_spec(float_spec(), Transform::Wrap(0))
}

pub fn float_literal() -> (r: Parser<Literal>)
    ensures
        r@ == float_literal_spec(),
        r.wf(),
{
    proof {
        lemma_wraps();
    }
    wrap::<String, Literal>(float(), 0)
}

pub open spec fn integer_literal_spec() -> Grammar {
    apply_spec(integer_spec(), Transform::Wrap(1))
}

pub fn integer_literal() -> (r: Parser<Literal>)
    ensures
        r@ == integer_literal_spec(),
        r.wf(),
{
    proof {
        lemma_wraps();
    }
    wrap::<String, Literal>(integer(), 1)
}

pub open spec fn bool_literal_spec() -> Grammar {
    apply_spec(
        apply_spec(
            or_spec(keyword_spec("true"@, Token::True), keyword_spec("false"@, Token::False)),
            Transform::IsTag(1),
        ),
        Transform::Wrap(2),
    )
}

/// `true` or `false`.
pub fn bool_literal() -> (r: Parser<Literal>)
    ensures
        r@ == bool_literal_spec(),
        r.wf(),
{
    proof {
        lemma_wraps();
    }
    let keys = true_key().or(false_key());
    proof {
        lemma_always_is_tag(keys@, 1);
    }
    let truth: Parser<bool> = keys.apply(Transform::IsTag(1));
    wrap::<bool, Literal>(truth, 2)
}

pub open spec fn reference_literal_spec() -> Grammar {
    apply_spec(identifier_spec(), Transform::Wrap(3))
}

/// A name, standing for the value it refers to.
pub fn reference_literal() -> (r: Parser<Literal>)
    ensures
        r@ == reference_literal_spec(),
        r.wf(),
{
    proof {
        lemma_wraps();
    }
    wrap::<String, Literal>(identifier(), 3)
}

pub open spec fn literal_spec() -> Grammar {
    or_spec(
        or_spec(or_spec(float_literal_spec(), integer_literal_spec()), bool_literal_spec()),
        reference_literal_spec(),
    )
}

/// A float, an integer, a boolean or a reference, tried in that order.
pub fn literal() -> (r: Parser<Literal>)
    ensures
        r@ == literal_spec(),
        r.wf(),
{
    float_literal().or(integer_literal()).or(bool_literal()).or(reference_literal())
}

pub open spec fn literal_expr_spec() -> Grammar {
    apply_spec(literal_spec(), Transform::Wrap(1))
}

pub fn literal_expr() -> (r: Parser<Expression>)
    ensures
        r@ == literal_expr_spec(),
        r.wf(),
{
    proof {
        lemma_wraps();
    }
    wrap::<Literal, Expression>(literal(), 1)
}

pub open spec fn block_expr_spec() -> Grammar {
    apply_spec(
        between_spec(
            symbol_spec("{"@),
            many_spec(left_spec(Grammar::Rule(Rule::Statement), keyword_spec(";"@, Token::Semicolon))),
            symbol_spec("}"@),
        ),
        Transform::Wrap(0),
    )
}

/// Statements, each ended by a semicolon, between braces.
pub fn block_expr() -> (r: Parser<Expression>)
    ensures
        r@ == block_expr_spec(),
        r.wf(),
{
    proof {
        lemma_wraps();
    }
    wrap::<Vec<Statement>, Expression>(block(statement().left(semicolon()).many()), 0)
}

/// A literal or a block.
pub fn expression() -> (r: Parser<Expression>)
    ensures
        r@ == Grammar::Rule(Rule::Expression),
        r.wf(),
{
    proof {
        lemma_always_rules();
    }
    Parser::lazy(Rule::Expression)
}

/// An optional `: type`.
pub open spec fn annotation_spec() -> Grammar {
    or_spec(
        apply_spec(
            right_spec(keyword_spec(":"@, Token::Colon), Grammar::Rule(Rule::Types)),
            Transform::Wrap(1),
        ),
        Grammar::Pure(<Option<Type> as Repr>::encode(None)),
    )
}

fn annotation() -> (r: Parser<Option<Type>>)
    ensures
        r@ == annotation_spec(),
        r.wf(),
{
    proof {
        lemma_wraps();
    }
    otherwise(wrap::<Type, Option<Type>>(colon().right(types()), 1), None)
}

pub open spec fn instantiate_spec() -> Grammar {
    apply_spec(
        and_spec(
            left_spec(
                and_spec(right_spec(keyword_spec("let"@, Token::Let), identifier_spec()), annotation_spec()),
                keyword_spec("="@, Token::Equals),
            ),
            Grammar::Rule(Rule::Expression),
        ),
        Transform::Wrap(2),
    )
}

/// `let name = expression`, with an optional type.
pub fn instantiate() -> (r: Parser<Statement>)
    ensures
        r@ == instantiate_spec(),
        r.wf(),
{
    proof {
        lemma_wraps();
    }
    wrap::<((String, Option<Type>), Expression), Statement>(
        let_key().right(identifier()).and(annotation()).left(equals()).and(expression()),
        2,
    )
}

pub open spec fn assign_spec() -> Grammar {
    apply_spec(
        and_spec(
            left_spec(identifier_spec(), keyword_spec("="@, Token::Equals)),
            Grammar::Rule(Rule::Expression),
        ),
        Transform::Wrap(1),
    )
}

/// `name = expression`.
pub fn assign() -> (r: Parser<Statement>)
    ensures
        r@ == assign_spec(),
        r.wf(),
{
    proof {
        lemma_wraps();
    }
    wrap::<(String, Expression), Statement>(identifier().left(equals()).and(expression()), 1)
}

pub open spec fn declare_spec() -> Grammar {
    apply_spec(
        and_spec(right_spec(keyword_spec("let"@, Token::Let), identifier_spec()), annotation_spec()),
        Transform::Wrap(0),
    )
}

/// `let name`, with an optional type.
pub fn declare() -> (r: Parser<Statement>)
    ensures
        r@ == declare_spec(),
        r.wf(),
{
    proof {
        lemma_wraps();
    }
    wrap::<(String, Option<Type>), Statement>(let_key().right(identifier()).and(annotation()), 0)
}

pub open spec fn variable_spec() -> Grammar {
    or_spec(or_spec(instantiate_spec(), assign_spec()), declare_spec())
}

/// An instantiation, an assignment or a declaration, tried in that order.
pub fn variable() -> (r: Parser<Statement>)
    ensures
        r@ == variable_spec(),
        r.wf(),
{
    instantiate().or(assign()).or(declare())
}

pub open spec fn expression_stat_spec() -> Grammar {
    apply_spec(Grammar::Rule(Rule::Expression), Transform::Wrap(3))
}

/// An expression standing as a statement.
pub fn expression_stat() -> (r: Parser<Statement>)
    ensures
        r@ == expression_stat_spec(),
        r.wf(),
{
    proof {
        lemma_wraps();
    }
    wrap::<Expression, Statement>(expression(), 3)
}

pub open spec fn no_op_spec() -> Grammar {
    Grammar::Pure(<Statement as Repr>::encode(Statement::NoOp))
}

/// The empty statement: consumes nothing.
pub fn no_op() -> (r: Parser<Statement>)
    ensures
        r@ == no_op_spec(),
        r.wf(),
{
    Parser::pure(Statement::NoOp)
}

/// Any statement, with the whitespace around it.
pub fn statement() -> (r: Parser<Statement>)
    ensures
        r@ == Grammar::Rule(Rule::Statement),
        r.wf(),
{
    proof {
        lemma_always_rules();
    }
    Parser::lazy(Rule::Statement)
}

pub open spec fn program_spec() -> Grammar {
    apply_spec(
        many_spec(left_spec(Grammar::Rule(Rule::Statement), keyword_spec(";"@, Token::Semicolon))),
        Transform::Wrap(0),
    )
}

/// Statements, each ended by a semicolon.
pub fn program() -> (r: Parser<Program>)
    ensures
        r@ == program_spec(),
        r.wf(),
{
    proof {
        lemma_wraps();
    }
    wrap::<Vec<Statement>, Program>(statement().left(semicolon()).many(), 0)
}

/// The body of each rule.
pub open spec fn rule_grammar(r: Rule) -> Grammar {
    match r {
        Rule::Types => or_spec(array_spec(), atomic_spec()),
        Rule::Expression => or_spec(literal_expr_spec(), block_expr_spec()),
        Rule::Statement => strip_spec(
            or_spec(or_spec(variable_spec(), expression_stat_spec()), no_op_spec()),
        ),
    }
}

/// Builds the body of rule `r`.
pub fn rule_node(r: Rule) -> (n: Node)
    ensures
        n@ == rule_grammar(r),
{
    match r {
        Rule::Types => array().or(atomic()).node,
        Rule::Expression => literal_expr().or(block_expr()).node,
        Rule::Statement => strip(variable().or(expression_stat()).or(no_op())).node,
    }
}

} // verus!
