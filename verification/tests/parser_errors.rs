use un_lang::errors::ParserError;
use un_lang::expr::Expr;
use un_lang::interpreter::significant_tokens;
use un_lang::parser::Parser;
use un_lang::resolver::{ResolveError, Resolver};
use un_lang::scanner::Scanner;
use un_lang::tokens::{Token, TokenType};

fn first_error(line: &str) -> String {
    let scanned = Scanner::scan_line(line.to_string(), 0);
    assert!(!scanned.has_err(), "the line scans: {}", line);
    let parsed = Parser::parse_tokens(significant_tokens(&scanned.into_tokens(), true));
    assert!(parsed.has_err(), "the line is refused: {}", line);
    parsed.into_err()[0].report()
}

fn ident(s: &str) -> Token {
    Token::new(TokenType::Identifier(s.to_string()), (0, 0))
}

fn tok(tt: TokenType) -> Token {
    Token::new(tt, (0, 0))
}

#[test]
fn an_expression_cut_short_is_an_unexpected_end() {
    assert_eq!(first_error("let x := 1 +"), "[EOF]::ERROR: Parser Error: Unexpected End of File");
}

#[test]
fn print_wants_a_parenthesis() {
    assert_eq!(first_error("print a;"), "[(0,7)]::ERROR: Parser Error: Invalid syntax for Print Statement");
}

#[test]
fn a_declaration_wants_an_identifier() {
    assert_eq!(first_error("let 1 := 2;"), "[(0,5)]::ERROR: Parser Error: Expected Identifier in Function Declaration");
}

#[test]
fn a_function_wants_its_parameter_list() {
    assert_eq!(
        first_error("fun f begin end"),
        "[(0,10)]::ERROR: Parser Error: Expected '(' In Function Declaration <fn f>"
    );
    assert_eq!(
        first_error("fun f(a begin end"),
        "[(0,12)]::ERROR: Parser Error: Missing ')' in Function Declaration <fn f>"
    );
}

#[test]
fn a_block_statement_ends_with_a_semicolon() {
    assert_eq!(first_error("begin print(a); end"), "[EOF]::ERROR: Parser Error: Unterminated Statement, Missing ';'");
}

#[test]
fn print_takes_no_assignment() {
    assert_eq!(first_error("print(x = y);"), "[(0,8)]::ERROR: Parser Error: Unclosed Expression");
}

#[test]
fn a_block_wants_its_end() {
    assert_eq!(first_error("begin print(a);"), "[EOF]::ERROR: Parser Error: Unterminated Block, Missing 'end'");
}

#[test]
fn a_for_loop_wants_in_and_do() {
    assert_eq!(first_error("for i [ 0 .. < 3 ] do end"), "[(0,6)]::ERROR: Parser Error: Missing Keyword 'in'");
    assert!(first_error("for i in [ 0 .. < 3 ] print(i); end").ends_with("Parser Error: Missing Block Starter 'do'"));
}

#[test]
fn a_range_is_checked_part_by_part() {
    assert!(first_error("for i in 0 .. < 3 ] do end").ends_with("Parser Error: Expected Range Starter '['"));
    assert!(first_error("for i in [ 0 ; 3 ] do end").ends_with("Parser Error: Missing Range Operator '..'"));
    assert!(first_error("for i in [ 0 .. 3 ] do end").ends_with("Parser Error: Missing Range Condition ('>' or '<')"));
    assert!(first_error("for i in [ 0 .. < 3 do end").ends_with("Parser Error: Unclosed Range, Missing ']'"));
}

#[test]
fn a_call_wants_its_closing_parenthesis() {
    assert_eq!(first_error("f(a;"), "[(0,3)]::ERROR: Parser Error: Unclosed Call Expression");
}

#[test]
fn a_conditional_expression_wants_then_else_and_end() {
    assert!(first_error("let m := if a b else c end;").ends_with("Parser Error: Missing 'then' in Conditional Expression"));
    assert!(first_error("let m := if a then b c end;").ends_with("Parser Error: Missing 'else' in Conditional Expression"));
    assert!(first_error("let m := if a then b else c;")
        .ends_with("Parser Error: Unterminanted Conditional Expression, Missing 'end'"));
}

#[test]
fn a_call_takes_at_most_255_arguments() {
    let mut tokens = vec![ident("f"), tok(TokenType::LeftParenthesis)];
    for i in 0..256 {
        if i > 0 {
            tokens.push(tok(TokenType::Comma));
        }
        tokens.push(ident("a"));
    }
    tokens.push(tok(TokenType::RightParenthesis));
    tokens.push(tok(TokenType::Semicolon));
    let parsed = Parser::parse_tokens(tokens);
    let errors = parsed.into_err();
    assert!(matches!(errors[0].err_type, ParserError::ExcessiveArguments));

    let mut tokens = vec![ident("f"), tok(TokenType::LeftParenthesis)];
    for i in 0..255 {
        if i > 0 {
            tokens.push(tok(TokenType::Comma));
        }
        tokens.push(ident("a"));
    }
    tokens.push(tok(TokenType::RightParenthesis));
    tokens.push(tok(TokenType::Semicolon));
    assert!(!Parser::parse_tokens(tokens).has_err());
}

#[test]
fn a_function_takes_at_most_255_parameters() {
    let mut tokens = vec![tok(TokenType::Fun), ident("f"), tok(TokenType::LeftParenthesis)];
    for i in 0..256 {
        if i > 0 {
            tokens.push(tok(TokenType::Comma));
        }
        tokens.push(ident("p"));
    }
    tokens.push(tok(TokenType::RightParenthesis));
    tokens.push(tok(TokenType::Begin));
    tokens.push(tok(TokenType::End));
    let errors = Parser::parse_tokens(tokens).into_err();
    match &errors[0].err_type {
        ParserError::ExcessiveArgumentsFunDecl(TokenType::Identifier(s)) => assert_eq!(s, "f"),
        other => panic!("expected too many parameters, got {:?}", other),
    }
}

#[test]
fn an_exposed_function_is_refused_by_the_resolver() {
    let e = Expr::exposed_fn(tok(TokenType::ExposedFunction("mod".to_string())));
    let mut r = Resolver::new();
    assert_eq!(r.resolve_expr(&e), Err(ResolveError::ExposedFunction));
}
