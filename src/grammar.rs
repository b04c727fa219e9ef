use vstd::prelude::*;

use vstd::string::{StrSliceExecFns, StringExecFns};

use crate::program::{rule_grammar, rule_node, Rule};
use crate::value::{char_value, lemma_sizes_bound, lemma_views_len, push_char, views, Val, Value};

verus! {

pub const NOTHING_TO_PARSE: &'static str = "Nothing to parse";

pub const CHARACTER_MISMATCH: &'static str = "Character mismatch";

pub const RULE_REENTERED: &'static str = "Rule entered again without consuming input";

/// A fixed rearrangement of a parsed value.
#[derive(Clone, Copy, PartialEq, Eq, Debug)]
pub enum Transform {
    /// The first component of a pair.
    First,
    /// The second component of a pair.
    Second,
    /// A pair of an item and a list, as one list with the item in front.
    Cons,
    /// All characters within the value, in order, as one text.
    Flatten,
    /// The value as the payload of the given variant.
    Wrap(u8),
    /// Whether the value is of the given variant.
    IsTag(u8),
}

/// The characters within a value, left to right.
pub open spec fn text_of(v: Val) -> Seq<char>
    decreases v,
{
    match v {
        Val::Char(c) => seq![c],
        Val::Text(t) => t,
        Val::Pair(a, b) => text_of(*a) + text_of(*b),
        Val::List(vs) => texts_of(vs),
        Val::Tag(_, p) => text_of(*p),
        _ => Seq::empty(),
    }
}

pub open spec fn texts_of(vs: Seq<Val>) -> Seq<char>
    decreases vs,
{
    if vs.len() == 0 {
        Seq::empty()
    } else {
        texts_of(vs.subrange(0, vs.len() - 1)) + text_of(vs[vs.len() - 1])
    }
}

pub open spec fn apply(t: Transform, v: Val) -> Val {
    match t {
        Transform::First => match v {
            Val::Pair(a, _) => *a,
            _ => v,
        },
        Transform::Second => match v {
            Val::Pair(_, b) => *b,
            _ => v,
        },
        Transform::Cons => match v {
            Val::Pair(h, tl) => match *tl {
                Val::List(vs) => Val::List(seq![*h] + vs),
                _ => v,
            },
            _ => v,
        },
        Transform::Flatten => Val::Text(text_of(v)),
        Transform::Wrap(k) => Val::Tag(k, Box::new(v)),
        Transform::IsTag(k) => Val::Bool(
            match v {
                Val::Tag(j, _) => j == k,
                _ => false,
            },
        ),
    }
}

/// A parser as a grammar expression.
pub enum Grammar {
    /// Consumes nothing and yields the value.
    Pure(Val),
    /// Consumes nothing and fails with the reason.
    Fail(&'static str),
    /// Any one character.
    AnyChar,
    /// Exactly the given character.
    Char(char),
    /// The inner grammar, with the transform applied to its value.
    Apply(Box<Grammar>, Transform),
    /// The first, then the second on what the first left.
    And(Box<Grammar>, Box<Grammar>),
    /// The first; where it fails, the second on the same input.
    Or(Box<Grammar>, Box<Grammar>),
    /// The inner grammar as often as it succeeds and consumes input.
    Many(Box<Grammar>),
    /// A named rule, whose body is built when it runs.
    Rule(Rule),
}

/// For each named rule, a bound on the length of the input at which it may
/// next be entered. A rule entered again at the position where it was last
/// entered would never end.
pub struct Limits {
    pub types: nat,
    pub expression: nat,
    pub statement: nat,
}

impl Limits {
    pub open spec fn start(n: nat) -> Limits {
        Limits { types: n + 1, expression: n + 1, statement: n + 1 }
    }

    pub open spec fn limit(self, r: Rule) -> nat {
        match r {
            Rule::Types => self.types,
            Rule::Expression => self.expression,
            Rule::Statement => self.statement,
        }
    }

    pub open spec fn lower(self, r: Rule, n: nat) -> Limits {
        match r {
            Rule::Types => Limits { types: n, ..self },
            Rule::Expression => Limits { expression: n, ..self },
            Rule::Statement => Limits { statement: n, ..self },
        }
    }

    pub open spec fn total(self) -> nat {
        self.types + self.expression + self.statement
    }
}

pub type Outcome = Result<(Val, Seq<char>), &'static str>;

/// The item in front of the list in a successful outcome of a repetition.
pub open spec fn prepend(v: Val, o: Outcome) -> Outcome {
    match o {
        Ok((Val::List(vs), rest)) => Ok((Val::List(seq![v] + vs), rest)),
        _ => o,
    }
}

/// What running grammar `g` on input `s` gives: a value and the rest of the
/// input, or a reason for failure.
pub open spec fn run(g: Grammar, s: Seq<char>, lim: Limits) -> Outcome
    decreases lim.total(), g, s.len(),
{
    match g {
        Grammar::Pure(v) => Ok((v, s)),
        Grammar::Fail(reason) => Err(reason),
        Grammar::AnyChar => if s.len() == 0 {
            Err(NOTHING_TO_PARSE)
        } else {
            Ok((Val::Char(s[0]), s.subrange(1, s.len() as int)))
        },
        Grammar::Char(c) => if s.len() > 0 && s[0] == c {
            Ok((Val::Char(c), s.subrange(1, s.len() as int)))
        } else {
            Err(CHARACTER_MISMATCH)
        },
        Grammar::Apply(p, t) => match run(*p, s, lim) {
            Ok((v, rest)) => Ok((apply(t, v), rest)),
            Err(e) => Err(e),
        },
        Grammar::And(a, b) => match run(*a, s, lim) {
            Ok((va, ra)) => match run(*b, ra, lim) {
                Ok((vb, rb)) => Ok((Val::Pair(Box::new(va), Box::new(vb)), rb)),
                Err(e) => Err(e),
            },
            Err(e) => Err(e),
        },
        Grammar::Or(a, b) => match run(*a, s, lim) {
            Ok(x) => Ok(x),
            Err(_) => run(*b, s, lim),
        },
        Grammar::Many(p) => match run(*p, s, lim) {
            Ok((v, rest)) => if rest.len() < s.len() {
                prepend(v, run(g, rest, lim))
            } else {
                Ok((Val::List(Seq::empty()), s))
            },
            Err(_) => Ok((Val::List(Seq::empty()), s)),
        },
        Grammar::Rule(r) => if s.len() < lim.limit(r) {
            run(rule_grammar(r), s, lim.lower(r, s.len()))
        } else {
            Err(RULE_REENTERED)
        },
    }
}

/// What running grammar `g` on the whole input `s` gives.
pub open spec fn parse_spec(g: Grammar, s: Seq<char>) -> Outcome {
    run(g, s, Limits::start(s.len()))
}

/// A parser as a grammar tree that can be run.
pub enum Node {
    Pure(Value),
    Fail(&'static str),
    AnyChar,
    Char(char),
    Apply(Box<Node>, Transform),
    And(Box<Node>, Box<Node>),
    Or(Box<Node>, Box<Node>),
    Many(Box<Node>),
    Rule(Rule),
}

impl Node {
    pub open spec fn model(&self) -> Grammar
        decreases self,
    {
        match self {
            Node::Pure(v) => Grammar::Pure(v@),
            Node::Fail(reason) => Grammar::Fail(*reason),
            Node::AnyChar => Grammar::AnyChar,
            Node::Char(c) => Grammar::Char(*c),
            Node::Apply(p, t) => Grammar::Apply(Box::new(p.model()), *t),
            Node::And(a, b) => Grammar::And(Box::new(a.model()), Box::new(b.model())),
            Node::Or(a, b) => Grammar::Or(Box::new(a.model()), Box::new(b.model())),
            Node::Many(p) => Grammar::Many(Box::new(p.model())),
            Node::Rule(r) => Grammar::Rule(*r),
        }
    }

    /// A copy with the same model.
    pub fn duplicate(&self) -> (r: Node)
        ensures
            r@ == self@,
        decreases self,
    {
        match self {
            Node::Pure(v) => Node::Pure(v.duplicate()),
            Node::Fail(reason) => Node::Fail(*reason),
            Node::AnyChar => Node::AnyChar,
            Node::Char(c) => Node::Char(*c),
            Node::Apply(p, t) => Node::Apply(Box::new(p.duplicate()), *t),
            Node::And(a, b) => Node::And(Box::new(a.duplicate()), Box::new(b.duplicate())),
            Node::Or(a, b) => Node::Or(Box::new(a.duplicate()), Box::new(b.duplicate())),
            Node::Many(p) => Node::Many(Box::new(p.duplicate())),
            Node::Rule(r) => Node::Rule(*r),
        }
    }
}

impl View for Node {
    type V = Grammar;

    open spec fn view(&self) -> Grammar {
        self.model()
    }
}

/// Appends the characters within `v` to `out`.
fn append_text(v: &Value, out: &mut String)
    ensures
        final(out)@ == old(out)@ + text_of(v@),
    decreases v.size(),
{
    match v {
        Value::Char(c) => push_char(out, *c),
        Value::Text(t) => out.append(t.as_str()),
        Value::Pair(a, b) => {
            append_text(a, out);
            append_text(b, out);
        },
        Value::Tag(_, p) => append_text(p, out),
        Value::List(vs) => {
            let ghost start = out@;
            let ghost xs = views(vs@);
            proof {
                lemma_views_len(vs@);
                assert(xs.subrange(0, 0) =~= Seq::<Val>::empty());
            }
            let mut i: usize = 0;
            while i < vs.len()
                invariant
                    *v == Value::List(*vs),
                    xs == views(vs@),
                    xs.len() == vs.len(),
                    forall|j: int| 0 <= j < vs.len() ==> #[trigger] xs[j] == vs@[j]@,
                    i <= vs.len(),
                    out@ == start + texts_of(xs.subrange(0, i as int)),
                decreases vs.len() - i,
            {
                proof {
                    lemma_sizes_bound(vs@, i as int);
                }
                append_text(&vs[i], out);
                proof {
                    let ys = xs.subrange(0, i + 1);
                    assert(ys.subrange(0, i as int) =~= xs.subrange(0, i as int));
                    assert(ys[i as int] == xs[i as int]);
                }
                i = i + 1;
            }
            proof {
                assert(xs.subrange(0, i as int) =~= xs);
            }
        },
        _ => {},
    }
}

/// The transform applied to a runtime value.
pub fn apply_value(t: Transform, v: Value) -> (r: Value)
    ensures
        r@ == apply(t, v@),
{
    match t {
        Transform::First => match v {
            Value::Pair(a, _) => *a,
            other => other,
        },
        Transform::Second => match v {
            Value::Pair(_, b) => *b,
            other => other,
        },
        Transform::Cons => match v {
            Value::Pair(h, tl) => match *tl {
                Value::List(vs) => {
                    let mut vs = vs;
                    let ghost old_vs = vs@;
                    vs.insert(0, *h);
                    proof {
                        assert(tl@ == Val::List(views(old_vs)));
                        assert(v@ == Val::Pair(Box::new(h@), Box::new(Val::List(views(old_vs)))));
                        lemma_views_len(vs@);
                        lemma_views_len(old_vs);
                        assert(views(vs@) =~= seq![h@] + views(old_vs));
                    }
                    Value::List(vs)
                },
                other => Value::Pair(h, Box::new(other)),
            },
            other => other,
        },
        Transform::Flatten => {
            let mut out = String::new();
            append_text(&v, &mut out);
            proof {
                assert(out@ =~= text_of(v@));
            }
            Value::Text(out)
        },
        Transform::Wrap(k) => Value::Tag(k, Box::new(v)),
        Transform::IsTag(k) => {
            let b = match &v {
                Value::Tag(j, _) => *j == k,
                _ => false,
            };
            Value::Bool(b)
        },
    }
}

/// For each named rule, the bound of `Limits` as a machine integer.
#[derive(Clone, Copy)]
pub struct Budget {
    pub types: usize,
    pub expression: usize,
    pub statement: usize,
}

impl View for Budget {
    type V = Limits;

    open spec fn view(&self) -> Limits {
        Limits {
            types: self.types as nat,
            expression: self.expression as nat,
            statement: self.statement as nat,
        }
    }
}

impl Budget {
    pub fn start(n: usize) -> (b: Budget)
        requires
            n < usize::MAX,
        ensures
            b@ == Limits::start(n as nat),
    {
        Budget { types: n + 1, expression: n + 1, statement: n + 1 }
    }

    pub fn limit(&self, r: Rule) -> (l: usize)
        ensures
            l == self@.limit(r),
    {
        match r {
            Rule::Types => self.types,
            Rule::Expression => self.expression,
            Rule::Statement => self.statement,
        }
    }

    pub fn lower(&self, r: Rule, n: usize) -> (b: Budget)
        ensures
            b@ == self@.lower(r, n as nat),
    {
        match r {
            Rule::Types => Budget { types: n, ..*self },
            Rule::Expression => Budget { expression: n, ..*self },
            Rule::Statement => Budget { statement: n, ..*self },
        }
    }
}

/// Whether a runtime result is the outcome `o`.
pub open spec fn agrees(r: Result<(Value, &str), &'static str>, o: Outcome) -> bool {
    match r {
        Ok((v, rest)) => o == Outcome::Ok((v@, rest@)),
        Err(e) => o == Outcome::Err(e),
    }
}

/// The first character of `s` and what follows it.
fn split_first<'a>(s: &'a str) -> (r: Option<(char, &'a str)>)
    ensures
        match r {
            None => s@.len() == 0,
            Some((c, rest)) => s@.len() > 0 && c == s@[0] && rest@ == s@.subrange(
                1,
                s@.len() as int,
            ),
        },
{
    let n = s.unicode_len();
    if n == 0 {
        None
    } else {
        Some((s.get_char(0), s.substring_char(1, n)))
    }
}

/// The items in front of the list in a successful outcome of a repetition.
pub open spec fn prepend_all(xs: Seq<Val>, o: Outcome) -> Outcome {
    match o {
        Ok((Val::List(vs), rest)) => Ok((Val::List(xs + vs), rest)),
        _ => o,
    }
}

/// Runs the grammar tree `n` on `s`.
pub fn run_node<'a>(n: &Node, s: &'a str, lim: Budget) -> (r: Result<(Value, &'a str), &'static str>)
    ensures
        agrees(r, run(n@, s@, lim@)),
    decreases lim@.total(), n@, s@.len(),
{
    match n {
        Node::Pure(v) => Ok((v.duplicate(), s)),
        Node::Fail(reason) => Err(*reason),
        Node::AnyChar => match split_first(s) {
            Some((c, rest)) => Ok((char_value(c), rest)),
            None => Err(NOTHING_TO_PARSE),
        },
        Node::Char(c) => match split_first(s) {
            Some((d, rest)) => if d == *c {
                Ok((char_value(d), rest))
            } else {
                Err(CHARACTER_MISMATCH)
            },
            None => Err(CHARACTER_MISMATCH),
        },
        Node::Apply(p, t) => match run_node(p, s, lim) {
            Ok((v, rest)) => Ok((apply_value(*t, v), rest)),
            Err(e) => Err(e),
        },
        Node::And(a, b) => match run_node(a, s, lim) {
            Ok((va, ra)) => match run_node(b, ra, lim) {
                Ok((vb, rb)) => Ok((Value::Pair(Box::new(va), Box::new(vb)), rb)),
                Err(e) => Err(e),
            },
            Err(e) => Err(e),
        },
        Node::Or(a, b) => match run_node(a, s, lim) {
            Ok(x) => Ok(x),
            Err(_) => run_node(b, s, lim),
        },
        Node::Many(p) => {
            let mut acc: Vec<Value> = Vec::new();
            let mut cur = s;
            proof {
                lemma_views_len(acc@);
                assert(views(acc@) =~= Seq::<Val>::empty());
                assert(Seq::<Val>::empty() + Seq::<Val>::empty() =~= Seq::<Val>::empty());
            }
            loop
                invariant
                    *n == Node::Many(*p),
                    prepend_all(views(acc@), run(n@, cur@, lim@)) == run(n@, s@, lim@),
                decreases cur@.len(),
            {
                match run_node(p, cur, lim) {
                    Ok((v, rest)) => {
                        if rest.unicode_len() < cur.unicode_len() {
                            let ghost before = acc@;
                            acc.push(v);
                            proof {
                                lemma_views_len(acc@);
                                lemma_views_len(before);
                                assert(views(acc@) =~= views(before).push(v@));
                                let o = run(n@, rest@, lim@);
                                if let Ok((Val::List(vs), r2)) = o {
                                    assert(views(before) + (seq![v@] + vs) =~= views(acc@) + vs);
                                }
                            }
                            cur = rest;
                        } else {
                            proof {
                                assert(views(acc@) + Seq::<Val>::empty() =~= views(acc@));
                            }
                            return Ok((Value::List(acc), cur));
                        }
                    },
                    Err(_) => {
                        proof {
                            assert(views(acc@) + Seq::<Val>::empty() =~= views(acc@));
                        }
                        return Ok((Value::List(acc), cur));
                    },
                }
            }
        },
        Node::Rule(r) => {
            let len = s.unicode_len();
            if len < lim.limit(*r) {
                let body = rule_node(*r);
                run_node(&body, s, lim.lower(*r, len))
            } else {
                Err(RULE_REENTERED)
            }
        },
    }
}

} // verus!
