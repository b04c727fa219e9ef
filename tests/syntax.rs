use combinators::program::{
    assign, atomic, block_expr, bool_literal, declare, float_literal, instantiate,
    integer_literal, literal_expr, program, reference_literal,
};
use combinators::{Expression, Literal, Program, Statement, Type};

#[test]
fn parse_primitive() {
    assert_eq!(
        atomic().parse("i32"),
        Ok((Type::Atomic("i32".to_string()), ""))
    );
}

#[test]
fn parse_float_literal() {
    assert_eq!(
        float_literal().parse("12378.5"),
        Ok((Literal::Float("12378.5".to_string()), ""))
    )
}

#[test]
fn parse_integer_literal() {
    assert_eq!(
        integer_literal().parse("12378"),
        Ok((Literal::Integer("12378".to_string()), ""))
    )
}

#[test]
fn parse_boolean_literal() {
    assert_eq!(
        bool_literal().parse("true"),
        Ok((Literal::Boolean(true), ""))
    )
}

#[test]
fn parse_reference_literal() {
    assert_eq!(
        reference_literal().parse("jlfd3"),
        Ok((Literal::Reference("jlfd3".to_string()), ""))
    )
}

#[test]
fn parse_literal_expr() {
    assert_eq!(
        literal_expr().parse("123"),
        Ok((Expression::Literal(Literal::Integer("123".to_string())), ""))
    )
}

#[test]
fn parse_block_expr() {
    assert_eq!(
        block_expr().parse("{let a = 123;}"),
        Ok((
            Expression::Block(vec![Statement::Instantiate(
                None,
                "a".to_string(),
                Expression::Literal(Literal::Integer("123".to_string()))
            )]),
            ""
        ))
    )
}

#[test]
fn parse_declare() {
    assert_eq!(
        declare().parse("let a: int"),
        Ok((
            Statement::Declare(Some(Type::Atomic("int".to_string())), "a".to_string()),
            ""
        ))
    );
    assert_eq!(
        declare().parse("let a"),
        Ok((Statement::Declare(None, "a".to_string()), ""))
    );
}

#[test]
fn parse_assignment() {
    assert_eq!(
        assign().parse("a = 50"),
        Ok((
            Statement::Assign(
                "a".to_string(),
                Expression::Literal(Literal::Integer("50".to_string()))
            ),
            ""
        ))
    )
}

#[test]
fn parse_instantiate() {
    assert_eq!(
        instantiate().parse("let a: i32 = 50"),
        Ok((
            Statement::Instantiate(
                Some(Type::Atomic("i32".to_string())),
                "a".to_string(),
                Expression::Literal(Literal::Integer("50".to_string()))
            ),
            ""
        ))
    );
    assert_eq!(
        instantiate().parse("let a = 50"),
        Ok((
            Statement::Instantiate(
                None,
                "a".to_string(),
                Expression::Literal(Literal::Integer("50".to_string()))
            ),
            ""
        ))
    );
}

#[test]
fn parse_program() {
    assert_eq!(
        program().parse("let a;"),
        Ok((Program(vec![Statement::Declare(None, "a".to_string())]), ""))
    );
}
