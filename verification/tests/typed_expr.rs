use un_lang::errors::{MismatchType, TypeError};
use un_lang::expr::Expr;
use un_lang::interpreter::significant_tokens;
use un_lang::parser::Parser;
use un_lang::scanner::Scanner;
use un_lang::stmt::Stmt;
use un_lang::tokens::TokenType;
use un_lang::typed_expr::{TValues, TypedExpr};
use un_lang::types::Types;

fn expr(line: &str) -> Expr {
    let scanned = Scanner::scan_line(line.to_string(), 0);
    assert!(!scanned.has_err());
    let parsed = Parser::parse_tokens(significant_tokens(&scanned.into_tokens(), true));
    assert!(!parsed.has_err());
    match parsed.into_stmt().into_iter().next() {
        Some(Stmt::Expr(e)) => e,
        other => panic!("expected an expression statement, got {:?}", other),
    }
}

fn check(line: &str) -> Result<TypedExpr, TypeError> {
    TypedExpr::try_from(expr(line))
}

#[test]
fn arithmetic_on_numbers_is_a_number() {
    let t = check("1 + 2 * 3;").expect("well typed");
    assert_eq!(t.get_type(), Types::Number);
    match t {
        TypedExpr::Binary { left, right, t, .. } => {
            assert_eq!(t, Types::Number);
            assert_eq!(left.get_type(), Types::Number);
            assert!(matches!(*right, TypedExpr::Binary { t: Types::Number, .. }));
        }
        other => panic!("expected a binary expression, got {:?}", other),
    }
}

#[test]
fn adding_strings_is_a_string() {
    assert_eq!(check("\"a\" + \"b\";").expect("well typed").get_type(), Types::String);
}

#[test]
fn comparisons_and_not_are_booleans() {
    assert_eq!(check("1 < 2;").expect("well typed").get_type(), Types::Bool);
    assert_eq!(check("\"a\" == 1;").expect("well typed").get_type(), Types::Bool);
    assert_eq!(check("not 1;").expect("well typed").get_type(), Types::Bool);
    assert_eq!(check("-(1 );").expect("well typed").get_type(), Types::Number);
    assert_eq!(check("nil;").expect("well typed").get_type(), Types::Nil);
}

#[test]
fn adding_a_number_and_a_string_is_a_mismatch() {
    match check("1 + \"a\";") {
        Err(TypeError::Mismatch { expected: MismatchType::Multiple(e), found: MismatchType::Multiple(f) }) => {
            assert_eq!(e, vec![(Types::Number, Types::Number), (Types::String, Types::String)]);
            assert_eq!(f, vec![(Types::Number, Types::String)]);
        }
        other => panic!("expected a mismatch, got {:?}", other),
    }
}

#[test]
fn subtracting_from_a_boolean_is_a_mismatch() {
    match check("true - 1;") {
        Err(TypeError::Mismatch { expected: MismatchType::Multiple(e), found: MismatchType::Multiple(f) }) => {
            assert_eq!(e, vec![(Types::Number, Types::Number)]);
            assert_eq!(f, vec![(Types::Bool, Types::Number)]);
        }
        other => panic!("expected a mismatch, got {:?}", other),
    }
}

#[test]
fn negating_a_boolean_is_a_mismatch() {
    match check("-true;") {
        Err(TypeError::Mismatch { expected: MismatchType::Single(e), found: MismatchType::Single(f) }) => {
            assert_eq!(e, vec![Types::Number]);
            assert_eq!(f, vec![Types::Bool]);
        }
        other => panic!("expected a mismatch, got {:?}", other),
    }
}

#[test]
fn the_left_operand_is_checked_first() {
    match check("(-true) + (-\"s\");") {
        Err(TypeError::Mismatch { found: MismatchType::Single(f), .. }) => assert_eq!(f, vec![Types::Bool]),
        other => panic!("expected a mismatch, got {:?}", other),
    }
}

#[test]
fn a_literal_keeps_its_value_and_place() {
    match check("42;").expect("well typed") {
        TypedExpr::Literal(v) => {
            assert_eq!(v.line, (0, 2));
            assert!(matches!(&v.t_val, TValues::Number(s) if s == "42"));
            assert_eq!(v.t_val.as_type(), Types::Number);
        }
        other => panic!("expected a literal, got {:?}", other),
    }
}

#[test]
fn only_literal_tokens_have_values() {
    assert!(TValues::from_literal(TokenType::Identifier("x".to_string())).is_none());
    assert!(matches!(TValues::from_literal(TokenType::False), Some(TValues::Bool(false))));
    assert!(matches!(TValues::from_literal(TokenType::Nil), Some(TValues::Nil)));
}

#[test]
fn type_check_has_no_rule_for_other_expressions() {
    assert!(TypedExpr::type_check(expr("x + 1;")).is_none());
    assert!(TypedExpr::type_check(expr("f(1 );")).is_none());
    assert!(matches!(TypedExpr::type_check(expr("1 + 2;")), Some(Ok(_))));
    assert!(matches!(TypedExpr::type_check(expr("-\"a\";")), Some(Err(_))));
}

#[test]
fn a_mismatch_inside_a_grouping_or_negation_is_reported_unchanged() {
    for line in ["(-true);", "-(-true);", "not (-true);", "(-true) < 1 ;"] {
        match check(line) {
            Err(TypeError::Mismatch { expected: MismatchType::Single(e), found: MismatchType::Single(f) }) => {
                assert_eq!(e, vec![Types::Number]);
                assert_eq!(f, vec![Types::Bool]);
            }
            other => panic!("expected a mismatch for {}, got {:?}", line, other),
        }
    }
}

#[test]
fn grouping_keeps_the_type_and_not_gives_a_boolean() {
    assert_eq!(check("(\"s\");").expect("well typed").get_type(), Types::String);
    assert_eq!(check("not \"s\";").expect("well typed").get_type(), Types::Bool);
    assert_eq!(check("-(1 );").expect("well typed").get_type(), Types::Number);
}
