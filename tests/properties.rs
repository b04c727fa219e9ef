use combinators::lexical::{
    any, char, delimited, digit, float, identifier, string, strip, symbol,
};
use combinators::program::{bool_literal, literal, program, types};
use combinators::{Expression, Literal, Parser, Program, Statement, Type};

#[test]
fn pure_consumes_nothing() {
    assert_eq!(
        Parser::pure("v".to_string()).parse("abc"),
        Ok(("v".to_string(), "abc"))
    );
    assert_eq!(Parser::pure(true).parse(""), Ok((true, "")));
}

#[test]
fn sequencing_groups_differ_only_in_shape() {
    let left = char('a').and(char('b')).and(char('c'));
    let right = char('a').and(char('b').and(char('c')));
    assert_eq!(left.parse("abcd"), Ok(((('a', 'b'), 'c'), "d")));
    assert_eq!(right.parse("abcd"), Ok((('a', ('b', 'c')), "d")));
    assert_eq!(left.parse("abx"), Err("Character mismatch"));
    assert_eq!(right.parse("abx"), Err("Character mismatch"));
}

#[test]
fn alternation_keeps_first_success() {
    assert_eq!(
        char('a').or(Parser::empty("second branch")).parse("ab"),
        Ok(('a', "b"))
    );
    assert_eq!(char('a').or(any()).parse("ab"), Ok(('a', "b")));
    assert_eq!(char('a').or(any()).parse("xb"), Ok(('x', "b")));
}

#[test]
fn alternation_reports_last_reason() {
    assert_eq!(
        Parser::<char>::empty("first").or(Parser::empty("second")).parse("x"),
        Err("second")
    );
}

#[test]
fn many_never_fails() {
    assert_eq!(char('x').many().parse("abc"), Ok((vec![], "abc")));
    assert_eq!(
        string("ab").many().parse("ababa"),
        Ok((vec!["ab".to_string(), "ab".to_string()], "a"))
    );
    assert_eq!(Parser::pure('z').many().parse("abc"), Ok((vec![], "abc")));
}

#[test]
fn some_needs_one() {
    assert_eq!(digit().some().parse("a"), Err("Character mismatch"));
    assert_eq!(digit().some().parse("12a"), Ok((vec!['1', '2'], "a")));
    assert_eq!(digit().some().qualify().parse("42x"), Ok(("42".to_string(), "x")));
}

#[test]
fn strip_round_trip() {
    assert_eq!(string("xy").parse("xy"), Ok(("xy".to_string(), "")));
    assert_eq!(
        strip(string("xy")).parse(" \t xy \n"),
        Ok(("xy".to_string(), ""))
    );
}

#[test]
fn identifier_accepts_underscore() {
    assert_eq!(
        identifier().parse("_tmp1 rest"),
        Ok(("_tmp1".to_string(), "rest"))
    );
}

#[test]
fn symbol_consumes_surrounding_whitespace() {
    assert_eq!(symbol("let").parse("  let  x"), Ok(("let".to_string(), "x")));
}

#[test]
fn float_with_suffix_and_spaces() {
    assert_eq!(float().parse(" 3.5 f rest"), Ok(("3.5".to_string(), "rest")));
    assert_eq!(float().parse("7.ff"), Ok(("7.".to_string(), "")));
}

#[test]
fn delimited_on_empty_input() {
    let items = delimited(digit(), char(','));
    assert_eq!(items.parse(""), Ok((vec![], "")));
    assert_eq!(items.parse("x"), Ok((vec![], "x")));
}

#[test]
fn nested_array_types() {
    assert_eq!(
        types().parse("[[i32]]"),
        Ok((
            Type::Array(Box::new(Type::Array(Box::new(Type::Atomic("i32".to_string()))))),
            ""
        ))
    );
}

#[test]
fn keywords_win_over_references() {
    assert_eq!(literal().parse("true"), Ok((Literal::Boolean(true), "")));
    assert_eq!(bool_literal().parse("false"), Ok((Literal::Boolean(false), "")));
    assert_eq!(
        literal().parse("trueish"),
        Ok((Literal::Boolean(true), "ish"))
    );
    assert_eq!(
        literal().parse("x1"),
        Ok((Literal::Reference("x1".to_string()), ""))
    );
}

#[test]
fn program_with_several_statements() {
    assert_eq!(
        program().parse("let a: i32 = 5; b = {let c;};"),
        Ok((
            Program(vec![
                Statement::Instantiate(
                    Some(Type::Atomic("i32".to_string())),
                    "a".to_string(),
                    Expression::Literal(Literal::Integer("5".to_string()))
                ),
                Statement::Assign(
                    "b".to_string(),
                    Expression::Block(vec![Statement::Declare(None, "c".to_string())])
                ),
            ]),
            ""
        ))
    );
}

#[test]
fn program_stops_at_unterminated_statement() {
    assert_eq!(
        program().parse("let a; 5"),
        Ok((Program(vec![Statement::Declare(None, "a".to_string())]), "5"))
    );
    assert_eq!(program().parse(""), Ok((Program(vec![]), "")));
    assert_eq!(
        program().parse(";"),
        Ok((Program(vec![Statement::NoOp]), ""))
    );
}
