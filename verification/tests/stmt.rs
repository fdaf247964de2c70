use un_lang::expr::Expr;
use un_lang::interpreter::significant_tokens;
use un_lang::parser::Parser;
use un_lang::scanner::Scanner;
use un_lang::stmt::{default_step, Stmt};
use un_lang::tokens::{Token, TokenType};

fn parse(line: &str) -> Vec<Stmt> {
    let scanned = Scanner::scan_line(line.to_string(), 0);
    assert!(!scanned.has_err());
    let parsed = Parser::parse_tokens(significant_tokens(&scanned.into_tokens(), true));
    assert!(!parsed.has_err());
    parsed.into_stmt()
}

fn step_of(block: &Stmt) -> &Expr {
    match block {
        Stmt::Block(items) => {
            assert_eq!(items.len(), 2);
            assert!(matches!(&items[0], Stmt::Var { .. }));
            match &items[1] {
                Stmt::While { stmts, .. } => match stmts.last() {
                    Some(Stmt::Expr(Expr::Assignment { expr, .. })) => match &**expr {
                        Expr::Binary { operator, right, .. } => {
                            assert!(matches!(operator.token_type, TokenType::Plus));
                            right
                        }
                        other => panic!("expected a sum, got {:?}", other),
                    },
                    other => panic!("expected the step, got {:?}", other),
                },
                other => panic!("expected a while loop, got {:?}", other),
            }
        }
        other => panic!("expected a block, got {:?}", other),
    }
}

fn number_text(e: &Expr) -> String {
    match e {
        Expr::Literal(Token { token_type: TokenType::Number(s), .. }) => s.clone(),
        other => panic!("expected a number, got {:?}", other),
    }
}

#[test]
fn a_for_loop_counting_up_steps_by_one() {
    let stmts = parse("for i in [ 0 .. < 3 ] do print(i); end");
    let block = stmts[0].desugar_for().expect("a for loop");
    assert_eq!(number_text(step_of(&block)), "1");
    match &block {
        Stmt::Block(items) => match &items[1] {
            Stmt::While { condition, stmts } => {
                assert!(matches!(&**condition, Expr::Binary { operator, .. } if matches!(operator.token_type, TokenType::Lesser)));
                assert_eq!(stmts.len(), 2);
                assert!(matches!(&stmts[0], Stmt::Print(_)));
            }
            _ => unreachable!(),
        },
        _ => unreachable!(),
    }
}

#[test]
fn a_for_loop_counting_down_steps_by_minus_one() {
    let stmts = parse("for i in [ 3 .. > 0 ] do end");
    let block = stmts[0].desugar_for().expect("a for loop");
    assert_eq!(number_text(step_of(&block)), "-1");
}

#[test]
fn a_written_step_is_kept() {
    let stmts = parse("for i in [ 0 .. < 9; 3 ] do end");
    let block = stmts[0].desugar_for().expect("a for loop");
    assert_eq!(number_text(step_of(&block)), "3");
}

#[test]
fn only_a_for_loop_desugars() {
    let stmts = parse("print(a);");
    assert!(stmts[0].desugar_for().is_none());
}

#[test]
fn the_default_step_sits_at_the_condition() {
    let cond = Token::new(TokenType::Greater, (4, 9));
    match default_step(&cond) {
        Expr::Literal(t) => {
            assert_eq!(t.line, (4, 9));
            assert!(matches!(&t.token_type, TokenType::Number(s) if s == "-1"));
        }
        other => panic!("expected a literal, got {:?}", other),
    }
}

#[test]
fn a_copy_of_a_statement_is_the_same_tree() {
    let stmts = parse("fun f(a) if a then return fn (b) a + b; else while a do a = a - 1; end end end");
    let copy = stmts[0].duplicate();
    assert_eq!(format!("{:?}", copy), format!("{:?}", stmts[0]));
}

#[test]
fn a_bare_return_statement_returns_nil() {
    match Stmt::return_stmt(None) {
        Stmt::Return(Expr::Literal(t)) => {
            assert!(matches!(t.token_type, TokenType::Nil));
            assert_eq!(t.line, (0, 0));
        }
        other => panic!("expected a return of nil, got {:?}", other),
    }
}

#[test]
fn statement_constructors_build_their_variants() {
    let e = || Expr::literal(Token::new(TokenType::True, (0, 0)));
    assert!(matches!(Stmt::expr(e()), Stmt::Expr(_)));
    assert!(matches!(Stmt::print(e()), Stmt::Print(_)));
    assert!(matches!(Stmt::while_stmt(e(), vec![]), Stmt::While { .. }));
    assert!(matches!(Stmt::conditional(e(), vec![], None), Stmt::Conditional { false_branch: None, .. }));
    assert!(matches!(Stmt::block(vec![Stmt::break_stmt()]), Stmt::Block(b) if b.len() == 1));
    let id = Token::new(TokenType::Identifier("i".to_string()), (0, 0));
    let cond = Token::new(TokenType::Lesser, (0, 0));
    match Stmt::for_stmt(id, e(), e(), None, cond, vec![]) {
        Stmt::For { step, .. } => assert_eq!(number_text(&step), "1"),
        other => panic!("expected a for loop, got {:?}", other),
    }
    let id = Token::new(TokenType::Identifier("i".to_string()), (0, 0));
    let down = Token::new(TokenType::Greater, (2, 5));
    match Stmt::for_stmt(id, e(), e(), None, down, vec![]) {
        Stmt::For { step, .. } => match &*step {
            Expr::Literal(t) => {
                assert_eq!(t.line, (2, 5));
                assert!(matches!(&t.token_type, TokenType::Number(s) if s == "-1"));
            }
            other => panic!("expected a literal, got {:?}", other),
        },
        other => panic!("expected a for loop, got {:?}", other),
    }
}
