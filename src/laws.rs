use vstd::prelude::*;

use crate::grammar::{
    apply, parse_spec, prepend, run, text_of, Grammar, Limits, Outcome, Transform, CHARACTER_MISMATCH,
};
use crate::lexical::{list_spec, string_spec, strip_spec, whitespace_chars, NO_MEMBERS};
use crate::parser::{and_spec, apply_spec, many_spec, or_spec};
use crate::program::rule_grammar;
use crate::value::Val;

verus! {

/// A pure grammar consumes nothing and yields its value, on every input.
pub proof fn law_pure(v: Val, s: Seq<char>, lim: Limits)
    ensures
        run(Grammar::Pure(v), s, lim) == Outcome::Ok((v, s)),
{
}

/// The value of `(a and b) and c`, grouped as the value of `a and (b and c)`.
pub open spec fn regroup(v: Val) -> Val {
    match v {
        Val::Pair(ab, c) => match *ab {
            Val::Pair(a, b) => Val::Pair(a, Box::new(Val::Pair(b, c))),
            _ => v,
        },
        _ => v,
    }
}

/// Sequencing is associative: both groupings succeed on the same inputs,
/// leave the same rest, fail with the same reason, and differ only in how
/// their values are grouped.
pub proof fn law_and_associative(a: Grammar, b: Grammar, c: Grammar, s: Seq<char>, lim: Limits)
    ensures
        run(and_spec(a, and_spec(b, c)), s, lim) == match run(and_spec(and_spec(a, b), c), s, lim) {
            Ok((v, rest)) => Outcome::Ok((regroup(v), rest)),
            Err(e) => Outcome::Err(e),
        },
{
    let left = and_spec(and_spec(a, b), c);
    let right = and_spec(a, and_spec(b, c));
    match run(a, s, lim) {
        Ok((va, ra)) => {
            match run(b, ra, lim) {
                Ok((vb, rb)) => {
                    assert(run(and_spec(a, b), s, lim) == Outcome::Ok(
                        (Val::Pair(Box::new(va), Box::new(vb)), rb),
                    ));
                    match run(c, rb, lim) {
                        Ok((vc, rc)) => {
                            assert(run(and_spec(b, c), ra, lim) == Outcome::Ok(
                                (Val::Pair(Box::new(vb), Box::new(vc)), rc),
                            ));
                        },
                        Err(e) => {
                            assert(run(and_spec(b, c), ra, lim) == Outcome::Err(e));
                        },
                    }
                },
                Err(e) => {
                    assert(run(and_spec(a, b), s, lim) == Outcome::Err(e));
                    assert(run(and_spec(b, c), ra, lim) == Outcome::Err(e));
                },
            }
        },
        Err(e) => {
            assert(run(and_spec(a, b), s, lim) == Outcome::Err(e));
        },
    }
}

/// Alternation commits to its first branch when that one succeeds: the
/// second is not consulted.
pub proof fn law_or_short_circuit(p1: Grammar, p2: Grammar, s: Seq<char>, lim: Limits)
    requires
        run(p1, s, lim) is Ok,
    ensures
        run(or_spec(p1, p2), s, lim) == run(p1, s, lim),
{
}

/// A parser with a default never fails: where the parser fails, the default
/// is yielded and nothing is consumed.
pub proof fn law_otherwise(p: Grammar, v: Val, s: Seq<char>, lim: Limits)
    ensures
        run(or_spec(p, Grammar::Pure(v)), s, lim) == match run(p, s, lim) {
            Ok(x) => Outcome::Ok(x),
            Err(_) => Outcome::Ok((v, s)),
        },
{
    assert(run(Grammar::Pure(v), s, lim) == Outcome::Ok((v, s)));
}

/// Whether `p`, wherever it succeeds, consumes input.
pub open spec fn consumes(p: Grammar, lim: Limits) -> bool {
    forall|t: Seq<char>| #[trigger]
        run(p, t, lim) is Ok ==> run(p, t, lim)->Ok_0.1.len() < t.len()
}

/// Repetition never fails. It stops where `p` fails or succeeds without
/// consuming input, and leaves the input as it was before that attempt;
/// for a `p` that consumes input whenever it succeeds, that is where `p`
/// first fails.
pub proof fn law_many_never_fails(p: Grammar, s: Seq<char>, lim: Limits)
    ensures
        run(many_spec(p), s, lim) is Ok,
        run(many_spec(p), s, lim)->Ok_0.0 is List,
        ({
            let rest = run(many_spec(p), s, lim)->Ok_0.1;
            &&& rest.len() <= s.len()
            &&& (run(p, rest, lim) is Err || run(p, rest, lim)->Ok_0.1.len() >= rest.len())
            &&& consumes(p, lim) ==> run(p, rest, lim) is Err
        }),
    decreases s.len(),
{
    let g = many_spec(p);
    match run(p, s, lim) {
        Ok((v, rest)) => {
            if rest.len() < s.len() {
                law_many_never_fails(p, rest, lim);
            }
        },
        Err(_) => {},
    }
}

/// A character set parser takes the first character exactly when it is a
/// member.
pub proof fn lemma_list(cs: Seq<char>, t: Seq<char>, lim: Limits)
    ensures
        run(list_spec(cs), t, lim) == if t.len() > 0 && cs.contains(t[0]) {
            Outcome::Ok((Val::Char(t[0]), t.subrange(1, t.len() as int)))
        } else if cs.len() == 0 {
            Outcome::Err(NO_MEMBERS)
        } else {
            Outcome::Err(CHARACTER_MISMATCH)
        },
    decreases cs.len(),
{
    if cs.len() > 0 {
        let init = cs.subrange(0, cs.len() - 1);
        let last = cs[cs.len() - 1];
        lemma_list(init, t, lim);
        assert(list_spec(cs) == or_spec(list_spec(init), Grammar::Char(last)));
        if t.len() == 0 {
            assert(run(list_spec(init), t, lim) is Err);
            assert(run(Grammar::Char(last), t, lim) == Outcome::Err(CHARACTER_MISMATCH));
        }
        if t.len() > 0 {
            if init.contains(t[0]) {
                let i = choose|i: int| 0 <= i < init.len() && init[i] == t[0];
                assert(cs[i] == t[0]);
            } else if t[0] == last {
                assert(cs[cs.len() - 1] == t[0]);
                assert(cs.contains(t[0]));
                assert(run(list_spec(init), t, lim) is Err);
            } else {
                assert(run(list_spec(init), t, lim) is Err);
                assert(run(Grammar::Char(last), t, lim) == Outcome::Err(CHARACTER_MISMATCH));
                assert forall|i: int| 0 <= i < cs.len() implies cs[i] != t[0] by {
                    if i < cs.len() - 1 {
                        assert(init[i] == cs[i]);
                    }
                }
            }
        }
    }
}

/// Whether every character of `s` is whitespace.
pub open spec fn all_whitespace(s: Seq<char>) -> bool {
    forall|i: int| 0 <= i < s.len() ==> whitespace_chars().contains(#[trigger] s[i])
}

/// Repeated whitespace consumes a run of whitespace up to the first other
/// character.
pub proof fn lemma_many_whitespace(ws: Seq<char>, y: Seq<char>, lim: Limits)
    requires
        all_whitespace(ws),
        y.len() == 0 || !whitespace_chars().contains(y[0]),
    ensures
        run(many_spec(list_spec(whitespace_chars())), ws + y, lim) is Ok,
        run(many_spec(list_spec(whitespace_chars())), ws + y, lim)->Ok_0.0 is List,
        run(many_spec(list_spec(whitespace_chars())), ws + y, lim)->Ok_0.1 == y,
    decreases ws.len(),
{
    let w = list_spec(whitespace_chars());
    let t = ws + y;
    lemma_list(whitespace_chars(), t, lim);
    if ws.len() == 0 {
        assert(t =~= y);
    } else {
        let tail = ws.subrange(1, ws.len() as int);
        assert(t[0] == ws[0]);
        assert(t.subrange(1, t.len() as int) =~= tail + y);
        assert forall|i: int| 0 <= i < tail.len() implies whitespace_chars().contains(
            #[trigger] tail[i],
        ) by {
            assert(tail[i] == ws[i + 1]);
        }
        lemma_many_whitespace(tail, y, lim);
    }
}

/// Stripping is transparent: `p` surrounded by whitespace yields what `p`
/// yields on its own payload, and the whitespace on both sides is consumed.
/// The payload must not start with whitespace, and `p` must stop where the
/// trailing whitespace starts.
pub proof fn law_strip(p: Grammar, ws1: Seq<char>, x: Seq<char>, ws2: Seq<char>, v: Val, lim: Limits)
    requires
        all_whitespace(ws1),
        all_whitespace(ws2),
        x.len() > 0,
        !whitespace_chars().contains(x[0]),
        run(p, x + ws2, lim) == Outcome::Ok((v, ws2)),
    ensures
        run(strip_spec(p), ws1 + x + ws2, lim) == Outcome::Ok((v, Seq::<char>::empty())),
{
    let m = many_spec(list_spec(whitespace_chars()));
    let input = ws1 + x + ws2;
    assert(input =~= ws1 + (x + ws2));
    assert((x + ws2)[0] == x[0]);
    lemma_many_whitespace(ws1, x + ws2, lim);
    lemma_many_whitespace(ws2, Seq::empty(), lim);
    assert(ws2 + Seq::<char>::empty() =~= ws2);
    let l1 = run(m, input, lim)->Ok_0.0;
    let l2 = run(m, ws2, lim)->Ok_0.0;
    assert(run(m, input, lim) == Outcome::Ok((l1, x + ws2)));
    assert(run(m, ws2, lim) == Outcome::Ok((l2, Seq::<char>::empty())));
    let front = and_spec(m, p);
    assert(run(front, input, lim) == Outcome::Ok((Val::Pair(Box::new(l1), Box::new(v)), ws2)));
    let body = apply_spec(front, Transform::Second);
    assert(run(body, input, lim) == Outcome::Ok((v, ws2)));
    let whole = and_spec(body, m);
    assert(run(whole, input, lim) == Outcome::Ok(
        (Val::Pair(Box::new(v), Box::new(l2)), Seq::<char>::empty()),
    ));
    assert(strip_spec(p) == apply_spec(whole, Transform::First));
}

/// Whether `rest` is a suffix of `s`.
pub open spec fn is_suffix(rest: Seq<char>, s: Seq<char>) -> bool {
    rest.len() <= s.len() && rest == s.subrange(s.len() - rest.len(), s.len() as int)
}

proof fn lemma_suffix_trans(c: Seq<char>, b: Seq<char>, a: Seq<char>)
    requires
        is_suffix(c, b),
        is_suffix(b, a),
    ensures
        is_suffix(c, a),
{
    assert(c =~= a.subrange(a.len() - c.len(), a.len() as int));
}

/// Parsing only ever moves forward: whatever succeeds leaves a suffix of
/// its input.
pub proof fn law_rest_is_suffix(g: Grammar, s: Seq<char>, lim: Limits)
    ensures
        run(g, s, lim) is Ok ==> is_suffix(run(g, s, lim)->Ok_0.1, s),
    decreases lim.total(), g, s.len(),
{
    assert(s.subrange(0, s.len() as int) =~= s);
    match g {
        Grammar::AnyChar => {},
        Grammar::Char(_) => {},
        Grammar::Apply(p, _) => {
            law_rest_is_suffix(*p, s, lim);
        },
        Grammar::And(a, b) => {
            law_rest_is_suffix(*a, s, lim);
            if let Ok((_, ra)) = run(*a, s, lim) {
                law_rest_is_suffix(*b, ra, lim);
                if let Ok((_, rb)) = run(*b, ra, lim) {
                    lemma_suffix_trans(rb, ra, s);
                }
            }
        },
        Grammar::Or(a, b) => {
            law_rest_is_suffix(*a, s, lim);
            law_rest_is_suffix(*b, s, lim);
        },
        Grammar::Many(p) => {
            law_rest_is_suffix(*p, s, lim);
            if let Ok((_, rest)) = run(*p, s, lim) {
                if rest.len() < s.len() {
                    law_rest_is_suffix(g, rest, lim);
                    law_many_never_fails(*p, rest, lim);
                    if let Ok((_, r2)) = run(g, rest, lim) {
                        lemma_suffix_trans(r2, rest, s);
                    }
                }
            }
        },
        Grammar::Rule(r) => {
            if s.len() < lim.limit(r) {
                law_rest_is_suffix(rule_grammar(r), s, lim.lower(r, s.len()));
            }
        },
        _ => {},
    }
}

proof fn lemma_text_of_char(c: char)
    ensures
        text_of(Val::Char(c)) == seq![c],
{
}

/// A string parser takes exactly its text from the front of the input.
pub proof fn lemma_string(t: Seq<char>, s: Seq<char>, lim: Limits)
    ensures
        run(string_spec(t), s, lim) == if t.len() <= s.len() && s.subrange(0, t.len() as int) == t {
            Outcome::Ok((Val::Text(t), s.subrange(t.len() as int, s.len() as int)))
        } else {
            Outcome::Err(CHARACTER_MISMATCH)
        },
    decreases t.len(),
{
    if t.len() == 0 {
        assert(s.subrange(0, 0) =~= t);
        assert(t =~= Seq::<char>::empty());
        assert(s.subrange(0, s.len() as int) =~= s);
    } else {
        let tail = t.subrange(1, t.len() as int);
        let front = and_spec(Grammar::Char(t[0]), string_spec(tail));
        assert(string_spec(t) == apply_spec(front, Transform::Flatten));
        let matches = t.len() <= s.len() && s.subrange(0, t.len() as int) == t;
        if s.len() > 0 && s[0] == t[0] {
            let s1 = s.subrange(1, s.len() as int);
            assert(run(Grammar::Char(t[0]), s, lim) == Outcome::Ok((Val::Char(t[0]), s1)));
            lemma_string(tail, s1, lim);
            if tail.len() <= s1.len() && s1.subrange(0, tail.len() as int) == tail {
                assert forall|i: int| 0 <= i < t.len() implies #[trigger] s.subrange(
                    0,
                    t.len() as int,
                )[i] == t[i] by {
                    if i > 0 {
                        assert(s1.subrange(0, tail.len() as int)[i - 1] == tail[i - 1]);
                    }
                }
                assert(s.subrange(0, t.len() as int) =~= t);
                let rest = s1.subrange(tail.len() as int, s1.len() as int);
                assert(rest =~= s.subrange(t.len() as int, s.len() as int));
                let pair = Val::Pair(Box::new(Val::Char(t[0])), Box::new(Val::Text(tail)));
                assert(run(front, s, lim) == Outcome::Ok((pair, rest)));
                lemma_text_of_char(t[0]);
                assert(text_of(Val::Text(tail)) == tail);
                assert(text_of(pair) == seq![t[0]] + tail);
                assert(seq![t[0]] + tail =~= t);
                assert(apply(Transform::Flatten, pair) == Val::Text(t));
                assert(run(string_spec(t), s, lim) == Outcome::Ok((Val::Text(t), rest)));
            } else {
                assert(run(front, s, lim) == Outcome::Err(
                    CHARACTER_MISMATCH,
                ));
                if matches {
                    assert(s1.subrange(0, tail.len() as int) =~= tail);
                }
            }
        } else {
            assert(run(Grammar::Char(t[0]), s, lim) == Outcome::Err(
                CHARACTER_MISMATCH,
            ));
            assert(run(front, s, lim) == Outcome::Err(
                CHARACTER_MISMATCH,
            ));
            if matches {
                assert(s.subrange(0, t.len() as int)[0] == s[0]);
            }
        }
    }
}

/// Whether two limits for one rule lead to the same runs on inputs no longer
/// than `n`: they are equal, or both exceed `n`.
pub open spec fn limit_agrees(a: nat, b: nat, n: nat) -> bool {
    a == b || (a > n && b > n)
}

pub open spec fn limits_agree(l1: Limits, l2: Limits, n: nat) -> bool {
    &&& limit_agrees(l1.types, l2.types, n)
    &&& limit_agrees(l1.expression, l2.expression, n)
    &&& limit_agrees(l1.statement, l2.statement, n)
}

/// The limits matter only where a rule would be entered again at the same
/// position: limits that agree above the length of the input give the same
/// outcome.
pub proof fn law_limits_agree(g: Grammar, s: Seq<char>, l1: Limits, l2: Limits)
    requires
        limits_agree(l1, l2, s.len()),
    ensures
        run(g, s, l1) == run(g, s, l2),
    decreases l1.total(), g, s.len(),
{
    match g {
        Grammar::Apply(p, _) => {
            law_limits_agree(*p, s, l1, l2);
        },
        Grammar::And(a, b) => {
            law_limits_agree(*a, s, l1, l2);
            law_rest_is_suffix(*a, s, l1);
            if let Ok((_, ra)) = run(*a, s, l1) {
                law_limits_agree(*b, ra, l1, l2);
            }
        },
        Grammar::Or(a, b) => {
            law_limits_agree(*a, s, l1, l2);
            law_limits_agree(*b, s, l1, l2);
        },
        Grammar::Many(p) => {
            law_limits_agree(*p, s, l1, l2);
            if let Ok((_, rest)) = run(*p, s, l1) {
                if rest.len() < s.len() {
                    law_limits_agree(g, rest, l1, l2);
                }
            }
        },
        Grammar::Rule(r) => {
            if s.len() < l1.limit(r) {
                law_limits_agree(
                    rule_grammar(r),
                    s,
                    l1.lower(r, s.len()),
                    l2.lower(r, s.len()),
                );
            }
        },
        _ => {},
    }
}

proof fn lemma_start_agrees(s: Seq<char>, t: Seq<char>)
    requires
        t.len() <= s.len(),
    ensures
        limits_agree(Limits::start(s.len()), Limits::start(t.len()), t.len()),
{
}

/// A pure parser, run on a whole input, consumes nothing and yields its
/// value.
pub proof fn law_parse_pure(v: Val, s: Seq<char>)
    ensures
        parse_spec(Grammar::Pure(v), s) == Outcome::Ok((v, s)),
{
}

/// Sequencing as two fresh parses: `b` parses what `a` left as it would
/// parse it on its own.
pub proof fn law_parse_and(a: Grammar, b: Grammar, s: Seq<char>)
    ensures
        parse_spec(and_spec(a, b), s) == match parse_spec(a, s) {
            Ok((va, ra)) => match parse_spec(b, ra) {
                Ok((vb, rb)) => Outcome::Ok((Val::Pair(Box::new(va), Box::new(vb)), rb)),
                Err(e) => Outcome::Err(e),
            },
            Err(e) => Outcome::Err(e),
        },
{
    let lim = Limits::start(s.len());
    law_rest_is_suffix(a, s, lim);
    if let Ok((_, ra)) = run(a, s, lim) {
        lemma_start_agrees(s, ra);
        law_limits_agree(b, ra, lim, Limits::start(ra.len()));
    }
}

/// Alternation as fresh parses: the first, or where it fails, the second on
/// the same input.
pub proof fn law_parse_or(a: Grammar, b: Grammar, s: Seq<char>)
    ensures
        parse_spec(or_spec(a, b), s) == match parse_spec(a, s) {
            Ok(x) => Outcome::Ok(x),
            Err(_) => parse_spec(b, s),
        },
{
}

/// Repetition as fresh parses: one parse of `p`, then the repetition on what
/// it left, as long as `p` succeeds and consumes input.
pub proof fn law_parse_many(p: Grammar, s: Seq<char>)
    ensures
        parse_spec(many_spec(p), s) == match parse_spec(p, s) {
            Ok((v, rest)) => if rest.len() < s.len() {
                prepend(v, parse_spec(many_spec(p), rest))
            } else {
                Outcome::Ok((Val::List(Seq::empty()), s))
            },
            Err(_) => Outcome::Ok((Val::List(Seq::empty()), s)),
        },
{
    let lim = Limits::start(s.len());
    if let Ok((_, rest)) = run(p, s, lim) {
        if rest.len() < s.len() {
            lemma_start_agrees(s, rest);
            law_limits_agree(many_spec(p), rest, lim, Limits::start(rest.len()));
        }
    }
}

/// Stripping, as fresh parses: where `p` parses its payload followed by the
/// trailing whitespace up to that whitespace, `strip(p)` parses the payload
/// with whitespace on both sides to the same value and consumes it all.
pub proof fn law_parse_strip(p: Grammar, ws1: Seq<char>, x: Seq<char>, ws2: Seq<char>, v: Val)
    requires
        all_whitespace(ws1),
        all_whitespace(ws2),
        x.len() > 0,
        !whitespace_chars().contains(x[0]),
        parse_spec(p, x + ws2) == Outcome::Ok((v, ws2)),
    ensures
        parse_spec(strip_spec(p), ws1 + x + ws2) == Outcome::Ok((v, Seq::<char>::empty())),
{
    let input = ws1 + x + ws2;
    let lim = Limits::start(input.len());
    lemma_start_agrees(input, x + ws2);
    law_limits_agree(p, x + ws2, lim, Limits::start((x + ws2).len()));
    law_strip(p, ws1, x, ws2, v, lim);
}

} // verus!
