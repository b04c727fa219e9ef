use vstd::prelude::*;

use crate::repr::Repr;
use crate::value::{lemma_sizes_bound, lemma_views_len, views, Val, Value};

verus! {

/// The keywords and punctuation of the statement language.
#[derive(PartialEq, Eq, Debug, Clone, Copy)]
pub enum Token {
    Let,
    True,
    False,
    Equals,
    Colon,
    Semicolon,
}

pub open spec fn token_tag(t: Token) -> u8 {
    match t {
        Token::Let => 0,
        Token::True => 1,
        Token::False => 2,
        Token::Equals => 3,
        Token::Colon => 4,
        Token::Semicolon => 5,
    }
}

impl Repr for Token {
    open spec fn encode(x: Token) -> Val {
        Val::Tag(token_tag(x), Box::new(Val::Unit))
    }

    open spec fn fits(v: Val) -> bool {
        match v {
            Val::Tag(k, p) => k < 6 && *p is Unit,
            _ => false,
        }
    }

    proof fn lemma_encode_fits(x: Token) {
    }

    fn into_value(self) -> (v: Value) {
        let k: u8 = match self {
            Token::Let => 0,
            Token::True => 1,
            Token::False => 2,
            Token::Equals => 3,
            Token::Colon => 4,
            Token::Semicolon => 5,
        };
        let u = Value::Unit;
        assert(u@ == Val::Unit);
        Value::Tag(k, Box::new(u))
    }

    fn from_value(v: Value) -> (r: Option<Token>) {
        match v {
            Value::Tag(k, p) => {
                assert(v@ == Val::Tag(k, Box::new(p@)));
                match *p {
                    Value::Unit => {
                        assert(p@ == Val::Unit);
                        if k == 0 {
                            Some(Token::Let)
                        } else if k == 1 {
                            Some(Token::True)
                        } else if k == 2 {
                            Some(Token::False)
                        } else if k == 3 {
                            Some(Token::Equals)
                        } else if k == 4 {
                            Some(Token::Colon)
                        } else if k == 5 {
                            Some(Token::Semicolon)
                        } else {
                            None
                        }
                    },
                    _ => None,
                }
            },
            _ => None,
        }
    }
}

/// A type annotation: a named type, or an array of a type.
#[derive(PartialEq, Eq, Debug)]
pub enum Type {
    Atomic(String),
    Array(Box<Type>),
}

pub open spec fn encode_type(t: Type) -> Val
    decreases t,
{
    match t {
        Type::Atomic(s) => Val::Tag(0, Box::new(Val::Text(s@))),
        Type::Array(inner) => Val::Tag(1, Box::new(encode_type(*inner))),
    }
}

pub open spec fn fits_type(v: Val) -> bool
    decreases v,
{
    match v {
        Val::Tag(0, p) => *p is Text,
        Val::Tag(1, p) => fits_type(*p),
        _ => false,
    }
}

fn decode_type(v: Value) -> (r: Option<Type>)
    ensures
        r is Some <==> fits_type(v@),
        r matches Some(x) ==> encode_type(x) == v@,
    decreases v.size(),
{
    match v {
        Value::Tag(k, p) => {
            assert(v@ == Val::Tag(k, Box::new(p@)));
            if k == 0 {
                match *p {
                    Value::Text(s) => {
                        assert(p@ == Val::Text(s@));
                        Some(Type::Atomic(s))
                    },
                    _ => None,
                }
            } else if k == 1 {
                match decode_type(*p) {
                    Some(t) => Some(Type::Array(Box::new(t))),
                    None => None,
                }
            } else {
                None
            }
        },
        _ => None,
    }
}

fn type_value(t: Type) -> (v: Value)
    ensures
        v@ == encode_type(t),
    decreases t,
{
    match t {
        Type::Atomic(s) => {
            let inner = Value::Text(s);
            assert(inner@ == Val::Text(s@));
            Value::Tag(0, Box::new(inner))
        },
        Type::Array(inner) => Value::Tag(1, Box::new(type_value(*inner))),
    }
}

impl Repr for Type {
    open spec fn encode(x: Type) -> Val {
        encode_type(x)
    }

    open spec fn fits(v: Val) -> bool {
        fits_type(v)
    }

    proof fn lemma_encode_fits(x: Type) {
        lemma_type_fits(x);
    }

    fn into_value(self) -> (v: Value) {
        type_value(self)
    }

    fn from_value(v: Value) -> (r: Option<Type>) {
        decode_type(v)
    }
}

/// A literal value.
#[derive(PartialEq, Eq, Debug)]
pub enum Literal {
    Float(String),
    Integer(String),
    Boolean(bool),
    Reference(String),
}

pub open spec fn encode_literal(l: Literal) -> Val {
    match l {
        Literal::Float(s) => Val::Tag(0, Box::new(Val::Text(s@))),
        Literal::Integer(s) => Val::Tag(1, Box::new(Val::Text(s@))),
        Literal::Boolean(b) => Val::Tag(2, Box::new(Val::Bool(b))),
        Literal::Reference(s) => Val::Tag(3, Box::new(Val::Text(s@))),
    }
}

pub open spec fn fits_literal(v: Val) -> bool {
    match v {
        Val::Tag(k, p) => if k == 2 {
            *p is Bool
        } else {
            k < 4 && *p is Text
        },
        _ => false,
    }
}

impl Repr for Literal {
    open spec fn encode(x: Literal) -> Val {
        encode_literal(x)
    }

    open spec fn fits(v: Val) -> bool {
        fits_literal(v)
    }

    proof fn lemma_encode_fits(x: Literal) {
    }

    fn into_value(self) -> (v: Value) {
        match self {
            Literal::Float(s) => text_tag(0, s),
            Literal::Integer(s) => text_tag(1, s),
            Literal::Boolean(b) => {
                let inner = Value::Bool(b);
                assert(inner@ == Val::Bool(b));
                Value::Tag(2, Box::new(inner))
            },
            Literal::Reference(s) => text_tag(3, s),
        }
    }

    fn from_value(v: Value) -> (r: Option<Literal>) {
        match v {
            Value::Tag(k, p) => {
                assert(v@ == Val::Tag(k, Box::new(p@)));
                match *p {
                    Value::Text(s) => {
                        assert(p@ == Val::Text(s@));
                        if k == 0 {
                            Some(Literal::Float(s))
                        } else if k == 1 {
                            Some(Literal::Integer(s))
                        } else if k == 3 {
                            Some(Literal::Reference(s))
                        } else {
                            None
                        }
                    },
                    Value::Bool(b) => {
                        assert(p@ == Val::Bool(b));
                        if k == 2 {
                            Some(Literal::Boolean(b))
                        } else {
                            None
                        }
                    },
                    _ => None,
                }
            },
            _ => None,
        }
    }
}

fn text_tag(k: u8, s: String) -> (v: Value)
    ensures
        v@ == Val::Tag(k, Box::new(Val::Text(s@))),
{
    let inner = Value::Text(s);
    assert(inner@ == Val::Text(s@));
    Value::Tag(k, Box::new(inner))
}

/// An expression: a block of statements, or a literal.
#[derive(PartialEq, Eq, Debug)]
pub enum Expression {
    Block(Vec<Statement>),
    Literal(Literal),
}

/// A statement of the language.
#[derive(PartialEq, Eq, Debug)]
pub enum Statement {
    /// `let name` or `let name: type`.
    Declare(Option<Type>, String),
    /// `name = expression`.
    Assign(String, Expression),
    /// `let name = expression`, with an optional type.
    Instantiate(Option<Type>, String, Expression),
    Expression(Expression),
    /// The empty statement.
    NoOp,
}

/// A whole program: its statements in order.
#[derive(PartialEq, Eq, Debug)]
pub struct Program(pub Vec<Statement>);

pub open spec fn encode_expr(e: Expression) -> Val
    decreases e,
{
    match e {
        Expression::Block(v) => Val::Tag(0, Box::new(Val::List(encode_stmts(v@)))),
        Expression::Literal(l) => Val::Tag(1, Box::new(encode_literal(l))),
    }
}

pub open spec fn encode_stmts(s: Seq<Statement>) -> Seq<Val>
    decreases s,
{
    if s.len() == 0 {
        Seq::empty()
    } else {
        encode_stmts(s.subrange(0, s.len() - 1)).push(encode_stmt(s[s.len() - 1]))
    }
}

pub open spec fn encode_stmt(st: Statement) -> Val
    decreases st,
{
    match st {
        Statement::Declare(t, name) => Val::Tag(
            0,
            Box::new(Val::Pair(Box::new(Val::Text(name@)), Box::new(<Option<Type> as Repr>::encode(t)))),
        ),
        Statement::Assign(name, e) => Val::Tag(
            1,
            Box::new(Val::Pair(Box::new(Val::Text(name@)), Box::new(encode_expr(e)))),
        ),
        Statement::Instantiate(t, name, e) => Val::Tag(
            2,
            Box::new(
                Val::Pair(
                    Box::new(
                        Val::Pair(
                            Box::new(Val::Text(name@)),
                            Box::new(<Option<Type> as Repr>::encode(t)),
                        ),
                    ),
                    Box::new(encode_expr(e)),
                ),
            ),
        ),
        Statement::Expression(e) => Val::Tag(3, Box::new(encode_expr(e))),
        Statement::NoOp => Val::Tag(4, Box::new(Val::Unit)),
    }
}

pub open spec fn fits_expr(v: Val) -> bool
    decreases v,
{
    match v {
        Val::Tag(0, p) => match *p {
            Val::List(vs) => fits_stmts(vs),
            _ => false,
        },
        Val::Tag(1, p) => fits_literal(*p),
        _ => false,
    }
}

pub open spec fn fits_stmts(vs: Seq<Val>) -> bool
    decreases vs,
{
    if vs.len() == 0 {
        true
    } else {
        fits_stmts(vs.subrange(0, vs.len() - 1)) && fits_stmt(vs[vs.len() - 1])
    }
}

pub open spec fn fits_stmt(v: Val) -> bool
    decreases v,
{
    match v {
        Val::Tag(0, p) => match *p {
            Val::Pair(a, b) => *a is Text && <Option<Type> as Repr>::fits(*b),
            _ => false,
        },
        Val::Tag(1, p) => match *p {
            Val::Pair(a, b) => *a is Text && fits_expr(*b),
            _ => false,
        },
        Val::Tag(2, p) => match *p {
            Val::Pair(a, b) => match *a {
                Val::Pair(n, t) => *n is Text && <Option<Type> as Repr>::fits(*t) && fits_expr(*b),
                _ => false,
            },
            _ => false,
        },
        Val::Tag(3, p) => fits_expr(*p),
        Val::Tag(4, p) => *p is Unit,
        _ => false,
    }
}

pub proof fn lemma_fits_stmts(vs: Seq<Val>)
    ensures
        fits_stmts(vs) <==> forall|i: int| 0 <= i < vs.len() ==> fits_stmt(#[trigger] vs[i]),
    decreases vs.len(),
{
    if vs.len() > 0 {
        let init = vs.subrange(0, vs.len() - 1);
        lemma_fits_stmts(init);
        if fits_stmts(vs) {
            assert forall|i: int| 0 <= i < vs.len() implies fits_stmt(#[trigger] vs[i]) by {
                if i < vs.len() - 1 {
                    assert(init[i] == vs[i]);
                }
            }
        }
        if forall|i: int| 0 <= i < vs.len() ==> fits_stmt(#[trigger] vs[i]) {
            assert forall|i: int| 0 <= i < init.len() implies fits_stmt(#[trigger] init[i]) by {
                assert(init[i] == vs[i]);
            }
        }
    }
}

proof fn lemma_views_push(s: Seq<Value>, x: Value)
    ensures
        views(s.push(x)) == views(s).push(x@),
{
    assert(s.push(x).subrange(0, s.len() as int) =~= s);
}

proof fn lemma_encode_stmts_push(s: Seq<Statement>, x: Statement)
    ensures
        encode_stmts(s.push(x)) == encode_stmts(s).push(encode_stmt(x)),
{
    assert(s.push(x).subrange(0, s.len() as int) =~= s);
}

fn decode_expr(v: Value) -> (r: Option<Expression>)
    ensures
        r is Some <==> fits_expr(v@),
        r matches Some(x) ==> encode_expr(x) == v@,
    decreases v.size(), 1nat,
{
    match v {
        Value::Tag(k, p) => {
            assert(v@ == Val::Tag(k, Box::new(p@)));
            if k == 0 {
                match *p {
                    Value::List(vs) => {
                        assert(p@ == Val::List(views(vs@)));
                        assert(v.size() == 1 + p.size());
                        assert(p.size() == 1 + crate::value::sizes(vs@));
                        match decode_stmts(vs) {
                            Some(items) => Some(Expression::Block(items)),
                            None => None,
                        }
                    },
                    _ => None,
                }
            } else if k == 1 {
                match Literal::from_value(*p) {
                    Some(l) => Some(Expression::Literal(l)),
                    None => None,
                }
            } else {
                None
            }
        },
        _ => None,
    }
}

fn decode_stmts(vs: Vec<Value>) -> (r: Option<Vec<Statement>>)
    ensures
        r is Some <==> fits_stmts(views(vs@)),
        r matches Some(out) ==> encode_stmts(out@) == views(vs@),
    decreases crate::value::sizes(vs@), 2nat,
{
    let ghost all = vs@;
    let ghost xs = views(all);
    proof {
        lemma_views_len(all);
        lemma_fits_stmts(xs);
        assert(xs.subrange(0, 0) =~= Seq::<Val>::empty());
    }
    let mut rest = vs;
    let mut out: Vec<Statement> = Vec::new();
    while rest.len() > 0
        invariant
            out.len() + rest.len() == all.len(),
            rest@ == all.subrange(out.len() as int, all.len() as int),
            xs == views(all),
            xs.len() == all.len(),
            forall|j: int| 0 <= j < all.len() ==> #[trigger] xs[j] == all[j]@,
            encode_stmts(out@) == xs.subrange(0, out.len() as int),
            forall|j: int| 0 <= j < out.len() ==> fits_stmt(#[trigger] xs[j]),
            fits_stmts(xs) <==> forall|i: int| 0 <= i < xs.len() ==> fits_stmt(#[trigger] xs[i]),
            all == vs@,
        decreases rest.len(),
    {
        let ghost before = rest@;
        let ghost k = out.len() as int;
        let x = rest.remove(0);
        proof {
            assert(x == before[0]);
            assert(x == all[k]);
            assert(rest@ =~= all.subrange(k + 1, all.len() as int));
            lemma_sizes_bound(all, k);
        }
        match decode_stmt(x) {
            Some(st) => {
                let ghost old_out = out@;
                out.push(st);
                proof {
                    lemma_encode_stmts_push(old_out, st);
                    assert(xs.subrange(0, k + 1) =~= xs.subrange(0, k).push(xs[k]));
                }
            },
            None => {
                proof {
                    assert(xs[k] == x@);
                    assert(!fits_stmt(xs[k]));
                    assert(0 <= k < xs.len());
                    assert(!fits_stmts(xs));
                }
                return None;
            },
        }
    }
    proof {
        assert(xs.subrange(0, all.len() as int) =~= xs);
    }
    Some(out)
}

fn decode_stmt(v: Value) -> (r: Option<Statement>)
    ensures
        r is Some <==> fits_stmt(v@),
        r matches Some(x) ==> encode_stmt(x) == v@,
    decreases v.size(), 1nat,
{
    match v {
        Value::Tag(k, p) => {
            assert(v@ == Val::Tag(k, Box::new(p@)));
            assert(v.size() == 1 + p.size());
            if k == 4 {
                match *p {
                    Value::Unit => {
                        assert(p@ == Val::Unit);
                        Some(Statement::NoOp)
                    },
                    _ => None,
                }
            } else if k == 3 {
                match decode_expr(*p) {
                    Some(e) => Some(Statement::Expression(e)),
                    None => None,
                }
            } else if k == 0 || k == 1 || k == 2 {
                match *p {
                    Value::Pair(a, b) => {
                        assert(p@ == Val::Pair(Box::new(a@), Box::new(b@)));
                        assert(p.size() == 1 + a.size() + b.size());
                        if k == 0 {
                            match (*a, <Option<Type> as Repr>::from_value(*b)) {
                                (Value::Text(name), Some(t)) => {
                                    assert(a@ == Val::Text(name@));
                                    Some(Statement::Declare(t, name))
                                },
                                _ => None,
                            }
                        } else if k == 1 {
                            match (*a, decode_expr(*b)) {
                                (Value::Text(name), Some(e)) => {
                                    assert(a@ == Val::Text(name@));
                                    Some(Statement::Assign(name, e))
                                },
                                _ => None,
                            }
                        } else {
                            match *a {
                                Value::Pair(n, t) => {
                                    assert(a@ == Val::Pair(Box::new(n@), Box::new(t@)));
                                    match (*n, <Option<Type> as Repr>::from_value(*t), decode_expr(*b)) {
                                        (Value::Text(name), Some(ty), Some(e)) => {
                                            assert(n@ == Val::Text(name@));
                                            Some(Statement::Instantiate(ty, name, e))
                                        },
                                        _ => None,
                                    }
                                },
                                _ => None,
                            }
                        }
                    },
                    _ => None,
                }
            } else {
                None
            }
        },
        _ => None,
    }
}

pub open spec fn expr_size(e: Expression) -> nat
    decreases e,
{
    match e {
        Expression::Block(v) => 1 + stmts_size(v@),
        Expression::Literal(_) => 1,
    }
}

pub open spec fn stmts_size(s: Seq<Statement>) -> nat
    decreases s,
{
    if s.len() == 0 {
        0
    } else {
        stmts_size(s.subrange(0, s.len() - 1)) + stmt_size(s[s.len() - 1])
    }
}

pub open spec fn stmt_size(st: Statement) -> nat
    decreases st,
{
    match st {
        Statement::Assign(_, e) => 1 + expr_size(e),
        Statement::Instantiate(_, _, e) => 1 + expr_size(e),
        Statement::Expression(e) => 1 + expr_size(e),
        _ => 1,
    }
}

proof fn lemma_stmts_size_bound(s: Seq<Statement>, i: int)
    requires
        0 <= i < s.len(),
    ensures
        stmt_size(s[i]) <= stmts_size(s),
    decreases s.len(),
{
    if i < s.len() - 1 {
        lemma_stmts_size_bound(s.subrange(0, s.len() - 1), i);
    }
}

fn expr_value(e: Expression) -> (v: Value)
    ensures
        v@ == encode_expr(e),
    decreases expr_size(e), 1nat,
{
    match e {
        Expression::Block(items) => {
            let ghost all = items@;
            let vs = stmts_value(items);
            let inner = Value::List(vs);
            assert(inner@ == Val::List(views(vs@)));
            Value::Tag(0, Box::new(inner))
        },
        Expression::Literal(l) => Value::Tag(1, Box::new(l.into_value())),
    }
}

fn stmts_value(items: Vec<Statement>) -> (vs: Vec<Value>)
    ensures
        views(vs@) == encode_stmts(items@),
    decreases stmts_size(items@), 2nat,
{
    let ghost all = items@;
    let mut rest = items;
    let mut out: Vec<Value> = Vec::new();
    proof {
        assert(all.subrange(0, 0) =~= Seq::<Statement>::empty());
        assert(views(out@) =~= Seq::<Val>::empty());
    }
    while rest.len() > 0
        invariant
            out.len() + rest.len() == all.len(),
            rest@ == all.subrange(out.len() as int, all.len() as int),
            views(out@) == encode_stmts(all.subrange(0, out.len() as int)),
            all == items@,
        decreases rest.len(),
    {
        let ghost before = rest@;
        let ghost k = out.len() as int;
        let ghost old_out = out@;
        let x = rest.remove(0);
        proof {
            assert(x == before[0]);
            assert(x == all[k]);
            assert(rest@ =~= all.subrange(k + 1, all.len() as int));
            lemma_stmts_size_bound(all, k);
        }
        let xv = stmt_value(x);
        out.push(xv);
        proof {
            lemma_views_push(old_out, xv);
            lemma_encode_stmts_push(all.subrange(0, k), all[k]);
            assert(all.subrange(0, k).push(all[k]) =~= all.subrange(0, k + 1));
        }
    }
    proof {
        assert(all.subrange(0, all.len() as int) =~= all);
    }
    out
}

fn stmt_value(st: Statement) -> (v: Value)
    ensures
        v@ == encode_stmt(st),
    decreases stmt_size(st), 1nat,
{
    match st {
        Statement::Declare(t, name) => {
            let n = Value::Text(name);
            assert(n@ == Val::Text(name@));
            let tv = t.into_value();
            let p = Value::Pair(Box::new(n), Box::new(tv));
            assert(p@ == Val::Pair(Box::new(n@), Box::new(tv@)));
            Value::Tag(0, Box::new(p))
        },
        Statement::Assign(name, e) => {
            let n = Value::Text(name);
            assert(n@ == Val::Text(name@));
            let ev = expr_value(e);
            let p = Value::Pair(Box::new(n), Box::new(ev));
            assert(p@ == Val::Pair(Box::new(n@), Box::new(ev@)));
            Value::Tag(1, Box::new(p))
        },
        Statement::Instantiate(t, name, e) => {
            let n = Value::Text(name);
            assert(n@ == Val::Text(name@));
            let head = Value::Pair(Box::new(n), Box::new(t.into_value()));
            let ev = expr_value(e);
            let p = Value::Pair(Box::new(head), Box::new(ev));
            assert(p@ == Val::Pair(Box::new(head@), Box::new(ev@)));
            Value::Tag(2, Box::new(p))
        },
        Statement::Expression(e) => Value::Tag(3, Box::new(expr_value(e))),
        Statement::NoOp => {
            let u = Value::Unit;
            assert(u@ == Val::Unit);
            Value::Tag(4, Box::new(u))
        },
    }
}

impl Repr for Expression {
    open spec fn encode(x: Expression) -> Val {
        encode_expr(x)
    }

    open spec fn fits(v: Val) -> bool {
        fits_expr(v)
    }

    proof fn lemma_encode_fits(x: Expression) {
        lemma_expr_fits(x);
    }

    fn into_value(self) -> (v: Value) {
        expr_value(self)
    }

    fn from_value(v: Value) -> (r: Option<Expression>) {
        decode_expr(v)
    }
}

impl Repr for Statement {
    open spec fn encode(x: Statement) -> Val {
        encode_stmt(x)
    }

    open spec fn fits(v: Val) -> bool {
        fits_stmt(v)
    }

    proof fn lemma_encode_fits(x: Statement) {
        lemma_stmt_fits(x);
    }

    fn into_value(self) -> (v: Value) {
        stmt_value(self)
    }

    fn from_value(v: Value) -> (r: Option<Statement>) {
        decode_stmt(v)
    }
}

pub open spec fn encode_program(p: Program) -> Val {
    Val::Tag(0, Box::new(Val::List(encode_stmts(p.0@))))
}

pub open spec fn fits_program(v: Val) -> bool {
    match v {
        Val::Tag(0, p) => match *p {
            Val::List(vs) => fits_stmts(vs),
            _ => false,
        },
        _ => false,
    }
}

impl Repr for Program {
    open spec fn encode(x: Program) -> Val {
        encode_program(x)
    }

    open spec fn fits(v: Val) -> bool {
        fits_program(v)
    }

    proof fn lemma_encode_fits(x: Program) {
        lemma_stmts_fit(x.0@);
    }

    fn into_value(self) -> (v: Value) {
        let vs = stmts_value(self.0);
        let inner = Value::List(vs);
        assert(inner@ == Val::List(views(vs@)));
        Value::Tag(0, Box::new(inner))
    }

    fn from_value(v: Value) -> (r: Option<Program>) {
        match v {
            Value::Tag(k, p) => {
                assert(v@ == Val::Tag(k, Box::new(p@)));
                if k == 0 {
                    match *p {
                        Value::List(vs) => {
                            assert(p@ == Val::List(views(vs@)));
                            match decode_stmts(vs) {
                                Some(items) => Some(Program(items)),
                                None => None,
                            }
                        },
                        _ => None,
                    }
                } else {
                    None
                }
            },
            _ => None,
        }
    }
}

proof fn lemma_type_fits(t: Type)
    ensures
        fits_type(encode_type(t)),
    decreases t,
{
    if let Type::Array(inner) = t {
        lemma_type_fits(*inner);
    }
}

proof fn lemma_expr_fits(e: Expression)
    ensures
        fits_expr(encode_expr(e)),
    decreases e,
{
    if let Expression::Block(v) = e {
        lemma_stmts_fit(v@);
    }
}

proof fn lemma_stmts_fit(s: Seq<Statement>)
    ensures
        fits_stmts(encode_stmts(s)),
    decreases s,
{
    if s.len() > 0 {
        lemma_stmts_fit(s.subrange(0, s.len() - 1));
        lemma_stmt_fits(s[s.len() - 1]);
        lemma_encode_stmts_push(s.subrange(0, s.len() - 1), s[s.len() - 1]);
        assert(s.subrange(0, s.len() - 1).push(s[s.len() - 1]) =~= s);
        let xs = encode_stmts(s);
        assert(xs.subrange(0, xs.len() - 1) =~= encode_stmts(s.subrange(0, s.len() - 1)));
    }
}

proof fn lemma_stmt_fits(st: Statement)
    ensures
        fits_stmt(encode_stmt(st)),
    decreases st,
{
    match st {
        Statement::Declare(t, _) => {
            <Option<Type> as Repr>::lemma_encode_fits(t);
        },
        Statement::Assign(_, e) => {
            lemma_expr_fits(e);
        },
        Statement::Instantiate(t, _, e) => {
            <Option<Type> as Repr>::lemma_encode_fits(t);
            lemma_expr_fits(e);
        },
        Statement::Expression(e) => {
            lemma_expr_fits(e);
        },
        Statement::NoOp => {},
    }
}

} // verus!
