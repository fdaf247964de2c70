use un_lang::errors::{ErrorMessage, ParserError, ScannerError};
use un_lang::interpreter::{is_significant, load_file, load_line, significant_tokens, Interpreter, LoadError};
use un_lang::resolver::ResolveError;
use un_lang::scanner::Scanner;
use un_lang::stmt::Stmt;
use un_lang::tokens::{Token, TokenType};

fn lines(ls: &[&str]) -> Vec<String> {
    ls.iter().map(|l| l.to_string()).collect()
}

#[test]
fn a_file_loads_into_statements_and_depths() {
    let r = load_file(lines(&["fun add(a, b)", "return a + b;", "end", "let r := add(x, y);"]));
    match r {
        Ok(p) => {
            assert_eq!(p.stmts.len(), 2);
            assert!(matches!(&p.stmts[0], Stmt::Function { .. }));
            assert_eq!(p.locals.get("a"), Some(&0));
            assert_eq!(p.locals.get("b"), Some(&0));
            assert_eq!(p.locals.get("r"), None);
        }
        Err(e) => panic!("expected a program, got {:?}", e),
    }
}

#[test]
fn comments_are_dropped_from_files() {
    match load_file(lines(&["let x := 1; // the answer", "// nothing here"])) {
        Ok(p) => assert_eq!(p.stmts.len(), 1),
        Err(e) => panic!("expected a program, got {:?}", e),
    }
}

#[test]
fn a_scanner_error_stops_a_file() {
    match load_file(lines(&["let x := 1;", "let y := 2a;"])) {
        Err(LoadError::Scan(es)) => {
            assert_eq!(es.len(), 1);
            assert!(matches!(es[0].err_type, ScannerError::MissingSeparation));
            assert_eq!(es[0].report(), "[(1,10)]::ERROR: Scanner Error: Missing Separation, Add a space after a number");
        }
        other => panic!("expected scanner errors, got {:?}", other.is_ok()),
    }
}

#[test]
fn a_parser_error_stops_a_file() {
    match load_file(lines(&["let x := ;"])) {
        Err(LoadError::Parse(es)) => {
            assert_eq!(es.len(), 1);
            assert!(matches!(es[0].err_type, ParserError::InvalidToken(TokenType::Semicolon)));
        }
        other => panic!("expected parser errors, got {:?}", other.is_ok()),
    }
}

#[test]
fn a_resolver_mistake_stops_a_file() {
    match load_file(lines(&["return 1;"])) {
        Err(LoadError::Resolve(e)) => assert_eq!(e, ResolveError::ReturnOutsideFunction),
        other => panic!("expected a resolver mistake, got {:?}", other.is_ok()),
    }
}

#[test]
fn a_prompt_line_keeps_its_comment() {
    match load_line("print(a);".to_string()) {
        Ok(p) if !p.has_err() => assert_eq!(p.into_stmt().len(), 1),
        other => panic!("expected statements, got {:?}", other.is_ok()),
    }
    match load_line("print(a); // note".to_string()) {
        Ok(p) if p.has_err() => {
            let es = p.into_err();
            assert!(matches!(es[0].err_type, ParserError::InvalidToken(TokenType::CommentStarter)));
            assert!(es[0].err_type.message().starts_with("Parser Error: Invalid Token(//)"));
        }
        other => panic!("expected parser errors, got {:?}", other.is_ok()),
    }
    match load_line("print(a); print(".to_string()) {
        Ok(p) if p.has_err() => assert_eq!(p.into_stmt().len(), 1),
        other => panic!("expected parser errors, got {:?}", other.is_ok()),
    }
}

#[test]
fn a_prompt_line_with_a_scanner_error_is_refused() {
    assert!(matches!(load_line("@".to_string()), Err(LoadError::Scan(es)) if es.len() == 1));
}

#[test]
fn significant_tokens_drop_blanks_and_maybe_comments() {
    let tokens = vec![
        Token::new(TokenType::Space, (0, 0)),
        Token::new(TokenType::Print, (0, 1)),
        Token::new(TokenType::CommentStarter, (0, 2)),
        Token::new(TokenType::Comment("c".to_string()), (0, 3)),
    ];
    assert_eq!(significant_tokens(&tokens, true).len(), 1);
    let kept = significant_tokens(&tokens, false);
    assert_eq!(kept.len(), 3);
    assert!(matches!(kept[0].token_type, TokenType::Print));
    assert!(!is_significant(&tokens[0], false));
    assert!(is_significant(&tokens[3], false));
    assert!(!is_significant(&tokens[3], true));
    let scanned = Scanner::scan_line("x // y".to_string(), 0).into_tokens();
    assert_eq!(significant_tokens(&scanned, true).len(), 1);
}

#[test]
fn a_variable_read_follows_the_recorded_depth() {
    let mut it: Interpreter<i64> = Interpreter::new();
    it.env.define_var(0, "g", 7);
    assert_eq!(it.look_up_var(0, "g"), Some(&7));
    let inner = it.env.with_outer(0);
    let innermost = it.env.with_outer(inner);
    it.env.define_var(inner, "x", 3);
    it.locals.insert("x", 1);
    assert_eq!(it.look_up_var(innermost, "x"), Some(&3));
    assert_eq!(it.look_up_var(inner, "x"), None);
    assert_eq!(it.look_up_var(innermost, "g"), Some(&7));
    assert_eq!(it.look_up_var(innermost, "missing"), None);
}

#[test]
fn an_assignment_follows_the_recorded_depth() {
    let mut it: Interpreter<i64> = Interpreter::new();
    it.env.define_var(0, "g", 7);
    let inner = it.env.with_outer(0);
    let innermost = it.env.with_outer(inner);
    it.env.define_var(inner, "x", 3);
    it.locals.insert("x", 1);
    assert!(it.assign(innermost, "x", 4));
    assert_eq!(it.look_up_var(innermost, "x"), Some(&4));
    assert!(it.assign(innermost, "g", 8));
    assert_eq!(it.env.get_var_val(0, "g"), Some(&8));
    assert!(!it.assign(innermost, "nope", 1));
    it.locals.insert("deep", 5);
    assert!(!it.assign(innermost, "deep", 1));
}
