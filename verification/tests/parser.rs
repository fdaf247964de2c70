use un_lang::errors::{ErrorMessage, ParserError};
use un_lang::expr::Expr;
use un_lang::interpreter::significant_tokens;
use un_lang::parser::Parser;
use un_lang::scanner::Scanner;
use un_lang::stmt::Stmt;
use un_lang::tokens::TokenType;

fn parse(line: &str) -> (Vec<Stmt>, Vec<String>) {
    let scanned = Scanner::scan_line(line.to_string(), 0);
    assert!(!scanned.has_err(), "the line scans: {}", line);
    let tokens = significant_tokens(&scanned.into_tokens(), true);
    let parsed = Parser::parse_tokens(tokens);
    if parsed.has_err() {
        let errors = parsed.into_err().iter().map(|e| e.report()).collect();
        (Vec::new(), errors)
    } else {
        (parsed.into_stmt(), Vec::new())
    }
}

fn name(e: &Expr) -> String {
    match e {
        Expr::Variable(t) => match &t.token_type {
            TokenType::Identifier(s) => s.clone(),
            _ => panic!("not an identifier"),
        },
        Expr::Literal(t) => t.token_type.describe(),
        _ => panic!("not a leaf: {:?}", e),
    }
}

fn op(e: &Expr) -> String {
    match e {
        Expr::Binary { operator, .. } => operator.token_type.describe(),
        _ => panic!("not a binary expression: {:?}", e),
    }
}

#[test]
fn multiplication_binds_tighter_than_addition() {
    let (stmts, errors) = parse("let x := 1 + 2 * 3;");
    assert!(errors.is_empty());
    assert_eq!(stmts.len(), 1);
    match &stmts[0] {
        Stmt::Var { target, expr } => {
            assert!(matches!(&target.token_type, TokenType::Identifier(s) if s == "x"));
            assert_eq!(op(expr), "+");
            match &**expr {
                Expr::Binary { left, right, .. } => {
                    assert_eq!(name(left), "1");
                    assert_eq!(op(right), "*");
                }
                _ => unreachable!(),
            }
        }
        other => panic!("expected a declaration, got {:?}", other),
    }
}

#[test]
fn and_binds_tighter_than_or() {
    let (stmts, errors) = parse("print(a or b and c);");
    assert!(errors.is_empty());
    match &stmts[0] {
        Stmt::Print(e) => {
            assert_eq!(op(e), "or");
            match e {
                Expr::Binary { left, right, .. } => {
                    assert_eq!(name(left), "a");
                    assert_eq!(op(right), "and");
                }
                _ => unreachable!(),
            }
        }
        other => panic!("expected a print, got {:?}", other),
    }
}

#[test]
fn binary_operators_of_one_level_associate_left() {
    let (stmts, errors) = parse("a - b - c;");
    assert!(errors.is_empty());
    match &stmts[0] {
        Stmt::Expr(Expr::Binary { left, right, .. }) => {
            assert_eq!(op(left), "-");
            assert_eq!(name(right), "c");
        }
        other => panic!("expected a subtraction, got {:?}", other),
    }
}

#[test]
fn assignment_associates_right() {
    let (stmts, errors) = parse("x = y = z;");
    assert!(errors.is_empty());
    match &stmts[0] {
        Stmt::Expr(Expr::Assignment { target, expr }) => {
            assert_eq!(name(target), "x");
            assert!(matches!(&**expr, Expr::Assignment { .. }));
        }
        other => panic!("expected an assignment, got {:?}", other),
    }
}

#[test]
fn assigning_to_a_non_variable_is_refused() {
    let (_, errors) = parse("a + b = c;");
    assert_eq!(errors, vec!["[(0,6)]::ERROR: Parser Error: Invalid Assignment Target".to_string()]);
}

#[test]
fn parses_a_function_declaration() {
    let (stmts, errors) = parse("fun add(a, b) return a + b; end");
    assert!(errors.is_empty());
    match &stmts[0] {
        Stmt::Function { identifier, params, body } => {
            assert!(matches!(&identifier.token_type, TokenType::Identifier(s) if s == "add"));
            assert_eq!(params.len(), 2);
            assert_eq!(body.len(), 1);
            assert!(matches!(&body[0], Stmt::Return(Expr::Binary { .. })));
        }
        other => panic!("expected a function, got {:?}", other),
    }
}

#[test]
fn a_bare_return_gives_nil() {
    let (stmts, errors) = parse("fun f() return; end");
    assert!(errors.is_empty());
    match &stmts[0] {
        Stmt::Function { body, .. } => match &body[0] {
            Stmt::Return(Expr::Literal(t)) => assert!(matches!(t.token_type, TokenType::Nil)),
            other => panic!("expected a return of nil, got {:?}", other),
        },
        other => panic!("expected a function, got {:?}", other),
    }
}

#[test]
fn parses_a_for_loop_without_a_step() {
    let (stmts, errors) = parse("for i in [ 0 .. < 10 ] do print(i); end");
    assert!(errors.is_empty());
    match &stmts[0] {
        Stmt::For { identifier, start, end, step, condition, stmts } => {
            assert!(matches!(&identifier.token_type, TokenType::Identifier(s) if s == "i"));
            assert_eq!(name(start), "0");
            assert_eq!(name(end), "10");
            assert!(matches!(&**step, Expr::Literal(t) if t.line == condition.line));
            assert_eq!(name(step), "1");
            assert!(matches!(condition.token_type, TokenType::Lesser));
            assert_eq!(stmts.len(), 1);
        }
        other => panic!("expected a for loop, got {:?}", other),
    }
}

#[test]
fn parses_a_for_loop_with_a_step() {
    let (stmts, errors) = parse("for i in [ 10 .. > 0; 2 ] do end");
    assert!(errors.is_empty());
    match &stmts[0] {
        Stmt::For { step, condition, stmts, .. } => {
            assert_eq!(name(step), "2");
            assert!(matches!(condition.token_type, TokenType::Greater));
            assert!(stmts.is_empty());
        }
        other => panic!("expected a for loop, got {:?}", other),
    }
}

#[test]
fn parses_a_conditional_statement_with_else() {
    let (stmts, errors) = parse("if a < b then print(a); else print(b); end");
    assert!(errors.is_empty());
    match &stmts[0] {
        Stmt::Conditional { condition, true_branch, false_branch } => {
            assert_eq!(op(condition), "<");
            assert_eq!(true_branch.len(), 1);
            assert_eq!(false_branch.as_ref().expect("an else branch").len(), 1);
        }
        other => panic!("expected a conditional, got {:?}", other),
    }
}

#[test]
fn parses_a_while_loop_and_a_block() {
    let (stmts, errors) = parse("while x do begin x = x - 1; end; break; end");
    assert!(errors.is_empty());
    match &stmts[0] {
        Stmt::While { stmts, .. } => {
            assert_eq!(stmts.len(), 2);
            assert!(matches!(&stmts[0], Stmt::Block(b) if b.len() == 1));
            assert!(matches!(&stmts[1], Stmt::Break));
        }
        other => panic!("expected a while loop, got {:?}", other),
    }
}

#[test]
fn parses_a_lambda_and_a_call() {
    let (stmts, errors) = parse("let f := fn (a) a + 1; f(x, y);");
    assert!(errors.is_empty());
    assert_eq!(stmts.len(), 2);
    match &stmts[0] {
        Stmt::Var { expr, .. } => match &**expr {
            Expr::Lambda { params, body } => {
                assert_eq!(params.len(), 1);
                assert_eq!(op(body), "+");
            }
            other => panic!("expected a lambda, got {:?}", other),
        },
        other => panic!("expected a declaration, got {:?}", other),
    }
    match &stmts[1] {
        Stmt::Expr(Expr::Call { callee, args, .. }) => {
            assert_eq!(name(callee), "f");
            assert_eq!(args.len(), 2);
        }
        other => panic!("expected a call, got {:?}", other),
    }
}

#[test]
fn parses_a_conditional_expression() {
    let (stmts, errors) = parse("let m := if a then b else c end;");
    assert!(errors.is_empty());
    match &stmts[0] {
        Stmt::Var { expr, .. } => assert!(matches!(&**expr, Expr::Conditional { .. })),
        other => panic!("expected a declaration, got {:?}", other),
    }
}

#[test]
fn a_missing_expression_is_an_invalid_token() {
    let (_, errors) = parse("let x := ;");
    assert_eq!(errors, vec!["[(0,9)]::ERROR: Parser Error: Invalid Token(;)".to_string()]);
}

#[test]
fn an_unclosed_print_is_reported() {
    let (_, errors) = parse("print(a;");
    assert_eq!(errors, vec!["[(0,7)]::ERROR: Parser Error: Unclosed Expression".to_string()]);
}

#[test]
fn parsing_resumes_after_an_error() {
    let (_, errors) = parse("let := 1; print(;");
    assert_eq!(errors.len(), 2);
}

#[test]
fn a_missing_semicolon_at_the_end_is_reported_at_eof() {
    let (_, errors) = parse("x = yy");
    assert_eq!(errors, vec!["[EOF]::ERROR: Parser Error: Unterminated Statement, Missing ';'".to_string()]);
}

#[test]
fn parser_error_messages() {
    assert_eq!(
        ParserError::ExpectedLeftParenthesisFnDecl(TokenType::Identifier("f".to_string())).message(),
        "Parser Error: Expected '(' In Function Declaration <fn f>"
    );
    assert_eq!(
        ParserError::ExcessiveArgumentsFunDecl(TokenType::Fn).message(),
        "Parser Error: Excessive arguments in Function Declaration <lambda>, Limit is 255"
    );
    assert_eq!(ParserError::InvalidToken(TokenType::Star).message(), "Parser Error: Invalid Token(*)");
}

#[test]
fn parses_an_exposed_function_call() {
    let (stmts, errors) = parse("@mod(a, b);");
    assert!(errors.is_empty());
    match &stmts[0] {
        Stmt::Expr(Expr::Call { callee, args, .. }) => {
            assert!(matches!(&**callee, Expr::ExposedFn(t) if matches!(&t.token_type, TokenType::ExposedFunction(s) if s == "@mod")));
            assert_eq!(args.len(), 2);
        }
        other => panic!("expected a call, got {:?}", other),
    }
}

#[test]
fn parses_continue_in_a_loop() {
    let (stmts, errors) = parse("while x do continue; end");
    assert!(errors.is_empty());
    match &stmts[0] {
        Stmt::While { stmts, .. } => assert!(matches!(&stmts[..], [Stmt::Continue])),
        other => panic!("expected a while loop, got {:?}", other),
    }
    let (_, errors) = parse("continue");
    assert_eq!(errors.len(), 1);
}
