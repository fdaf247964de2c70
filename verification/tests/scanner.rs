use un_lang::errors::{ErrorMessage, Pos, ScannerError};
use un_lang::scanner::Scanner;
use un_lang::tokens::{Token, TokenType};

fn scan(line: &str) -> (Vec<(String, (usize, usize))>, Vec<String>) {
    let r = Scanner::scan_line(line.to_string(), 0);
    let has_err = r.has_err();
    let mut errors = Vec::new();
    let mut tokens = Vec::new();
    if has_err {
        for e in r.into_err() {
            errors.push(e.report());
        }
    } else {
        for t in r.into_tokens() {
            tokens.push((t.token_type.describe(), t.line));
        }
    }
    (tokens, errors)
}

fn texts(v: &[(String, (usize, usize))]) -> Vec<&str> {
    v.iter().map(|(s, _)| s.as_str()).collect()
}

#[test]
fn scans_a_variable_declaration() {
    let (tokens, errors) = scan("let x := 5;");
    assert!(errors.is_empty());
    assert_eq!(
        tokens,
        vec![
            ("let".to_string(), (0, 2)),
            ("identifier(x)".to_string(), (0, 5)),
            (":=".to_string(), (0, 7)),
            ("5".to_string(), (0, 10)),
            (";".to_string(), (0, 10)),
        ]
    );
}

#[test]
fn scans_keywords_fun_fn_and_break() {
    let (tokens, errors) = scan("fun fn break");
    assert!(errors.is_empty());
    assert_eq!(texts(&tokens), vec!["fun", "fn", "break"]);
    assert_eq!(tokens[2].1, (0, 11));
}

#[test]
fn scans_numbers_with_separators_and_a_dot() {
    let (tokens, errors) = scan("1_000.5;");
    assert!(errors.is_empty());
    assert_eq!(tokens, vec![("1000.5".to_string(), (0, 7)), (";".to_string(), (0, 7))]);
}

#[test]
fn scans_a_string_without_its_quotes() {
    let r = Scanner::scan_line("print(\"hi there\");".to_string(), 3);
    assert!(!r.has_err());
    let tokens = r.into_tokens();
    assert_eq!(tokens.len(), 5);
    match &tokens[2].token_type {
        TokenType::String(s) => assert_eq!(s, "hi there"),
        other => panic!("expected a string, got {:?}", other),
    }
    assert_eq!(tokens[2].line, (3, 15));
}

#[test]
fn scans_a_comment_to_the_end_of_the_line() {
    let r = Scanner::scan_line("x // hi".to_string(), 0);
    assert!(!r.has_err());
    let tokens = r.into_tokens();
    assert_eq!(tokens.len(), 3);
    assert!(matches!(tokens[0].token_type, TokenType::Identifier(_)));
    assert!(matches!(tokens[1].token_type, TokenType::CommentStarter));
    assert_eq!(tokens[1].line, (0, 2));
    match &tokens[2].token_type {
        TokenType::Comment(c) => assert_eq!(c, " hi"),
        other => panic!("expected a comment, got {:?}", other),
    }
    assert_eq!(tokens[2].line, (0, 6));
}

#[test]
fn a_lone_slash_is_a_division() {
    let (tokens, errors) = scan("a / b;");
    assert!(errors.is_empty());
    assert_eq!(texts(&tokens), vec!["identifier(a)", "/", "identifier(b)", ";"]);
}

#[test]
fn scans_two_character_operators() {
    let (tokens, errors) = scan("a <= b != c == d >= e;");
    assert!(errors.is_empty());
    assert_eq!(
        texts(&tokens),
        vec![
            "identifier(a)",
            "<=",
            "identifier(b)",
            "!=",
            "identifier(c)",
            "==",
            "identifier(d)",
            ">=",
            "identifier(e)",
            ";"
        ]
    );
}

#[test]
fn a_number_glued_to_a_letter_is_missing_separation() {
    let (_, errors) = scan("12a");
    assert_eq!(
        errors,
        vec!["[(0,2)]::ERROR: Scanner Error: Missing Separation, Add a space after a number".to_string()]
    );
}

#[test]
fn an_unclosed_string_is_reported_at_its_last_character() {
    let (_, errors) = scan("\"abc");
    assert_eq!(errors, vec!["[(0,3)]::ERROR: Scanner Error: Unclosed String, Missing '\"'".to_string()]);
}

#[test]
fn an_unknown_character_is_an_invalid_token() {
    let r = Scanner::scan_line("@".to_string(), 2);
    assert!(r.has_err());
    let errors = r.into_err();
    assert_eq!(errors.len(), 1);
    assert!(matches!(errors[0].pos, Pos::Known(2, 0)));
    match &errors[0].err_type {
        ScannerError::InvalidToken(t) => assert_eq!(t, "@"),
        other => panic!("expected an invalid token, got {:?}", other),
    }
    assert_eq!(errors[0].report(), "[(2,0)]::ERROR: Scanner Error: Invalid Token: '@'");
}

#[test]
fn a_second_dot_in_a_number_is_an_invalid_token() {
    let (_, errors) = scan("1.2.3;");
    assert_eq!(errors, vec!["[(0,3)]::ERROR: Scanner Error: Invalid Token: '.'".to_string()]);
}

#[test]
fn an_underscore_before_a_dot_is_reported() {
    let (_, errors) = scan("1_.5;");
    assert_eq!(
        errors,
        vec!["[(0,1)]::ERROR: Scanner Error: Unexpected Number Separator, Remove the '_' before '.'".to_string()]
    );
}

#[test]
fn an_underscore_after_a_dot_is_an_invalid_token() {
    let (_, errors) = scan("1._5;");
    assert_eq!(errors, vec!["[(0,2)]::ERROR: Scanner Error: Invalid Token: '_'".to_string()]);
}

#[test]
fn a_single_letter_at_the_end_of_a_line_is_a_token() {
    let (tokens, errors) = scan("print x");
    assert!(errors.is_empty());
    assert_eq!(tokens, vec![("print".to_string(), (0, 4)), ("identifier(x)".to_string(), (0, 6))]);
}

#[test]
fn a_number_at_the_end_of_a_line_is_a_token() {
    let (tokens, errors) = scan("let x := 5");
    assert!(errors.is_empty());
    assert_eq!(tokens.last(), Some(&("5".to_string(), (0, 9))));
    let (tokens, errors) = scan("12a");
    assert_eq!(errors.len(), 1);
    assert!(tokens.is_empty());
}

#[test]
fn scans_an_exposed_function_call() {
    let (tokens, errors) = scan("@mod(a, b);");
    assert!(errors.is_empty());
    assert_eq!(
        texts(&tokens),
        vec!["exposed_fn(@mod)", "(", "identifier(a)", ",", "identifier(b)", ")", ";"]
    );
    assert_eq!(tokens[0].1, (0, 3));
}

#[test]
fn lines_are_numbered_by_their_index() {
    let r = Scanner::scan_lines(vec!["let a := 1;".to_string(), "print(a);".to_string()]);
    assert!(!r.has_err());
    let tokens: Vec<Token> = r.into_tokens();
    assert_eq!(tokens.len(), 10);
    assert_eq!(tokens[0].line, (0, 2));
    assert_eq!(tokens[5].line.0, 1);
    assert!(matches!(tokens[5].token_type, TokenType::Print));
}

#[test]
fn errors_of_all_lines_are_kept_in_order() {
    let r = Scanner::scan_lines(vec!["@".to_string(), "ok;".to_string(), "#".to_string()]);
    let errors = r.into_err();
    assert_eq!(errors.len(), 2);
    assert!(matches!(errors[0].pos, Pos::Known(0, 0)));
    assert!(matches!(errors[1].pos, Pos::Known(2, 0)));
}

#[test]
fn scan_token_classifies_literals() {
    let c = |s: &str| -> Vec<char> { s.chars().collect() };
    assert!(matches!(Scanner::scan_token(&c("   ")), Some(TokenType::Space)));
    assert!(matches!(Scanner::scan_token(&c("42")), Some(TokenType::Number(_))));
    assert!(matches!(Scanner::scan_token(&c("4.2")), Some(TokenType::Number(_))));
    assert!(matches!(Scanner::scan_token(&c("_a1")), Some(TokenType::Identifier(_))));
    assert!(matches!(Scanner::scan_token(&c("\"s\"")), Some(TokenType::String(_))));
    assert!(Scanner::scan_token(&c("4.")).is_none());
    assert!(Scanner::scan_token(&c("1a")).is_none());
    assert!(Scanner::scan_token(&c("-1")).is_none());
    assert!(matches!(Scanner::scan_token(&c("@mod")), Some(TokenType::ExposedFunction(s)) if s == "@mod"));
    assert!(Scanner::scan_token(&c("@")).is_none());
    assert!(Scanner::scan_token(&c("@1")).is_none());
}

#[test]
fn fixed_texts_read_back_as_their_token_types() {
    let all = vec![
        TokenType::LeftParenthesis,
        TokenType::RightParenthesis,
        TokenType::LeftBracket,
        TokenType::RightBracket,
        TokenType::Comma,
        TokenType::Dot,
        TokenType::Semicolon,
        TokenType::Minus,
        TokenType::Plus,
        TokenType::Slash,
        TokenType::Star,
        TokenType::Equal,
        TokenType::ColonEqual,
        TokenType::BangEqual,
        TokenType::EqualEqual,
        TokenType::Greater,
        TokenType::GreaterEqual,
        TokenType::Lesser,
        TokenType::LesserEqual,
        TokenType::CommentStarter,
        TokenType::DotDot,
        TokenType::Not,
        TokenType::And,
        TokenType::Or,
        TokenType::Fun,
        TokenType::Fn,
        TokenType::Return,
        TokenType::Break,
        TokenType::For,
        TokenType::In,
        TokenType::While,
        TokenType::Do,
        TokenType::If,
        TokenType::Then,
        TokenType::Else,
        TokenType::Begin,
        TokenType::End,
        TokenType::Nil,
        TokenType::Print,
        TokenType::True,
        TokenType::False,
        TokenType::Let,
        TokenType::Space,
    ];
    for tt in all {
        let text: Vec<char> = tt.describe().chars().collect();
        let back = Scanner::scan_token(&text).expect("a fixed text reads back");
        assert!(back.same_kind(&tt), "{:?} read back as {:?}", tt, back);
    }
}

#[test]
fn scanner_error_messages() {
    assert_eq!(
        ScannerError::MultipleDecimalDivider.message(),
        "Scanner Error: Multiple Decimal Divider, Use a single '.'"
    );
    assert_eq!(ScannerError::InvalidToken("$".to_string()).message(), "Scanner Error: Invalid Token: '$'");
}

#[test]
fn every_reported_position_lies_in_the_text() {
    let text = vec![
        "let total := 0;".to_string(),
        "for i in [ 0 .. < 4 ] do total = total + i; end // sum".to_string(),
        "print(\"done\" 12a @".to_string(),
    ];
    let r = Scanner::scan_lines(text.clone());
    let lens: Vec<usize> = text.iter().map(|l| l.chars().count()).collect();
    let errors = Scanner::scan_lines(text).into_err();
    assert!(!errors.is_empty());
    for e in &errors {
        match e.pos {
            Pos::Known(l, c) => assert!(l < lens.len() && c < lens[l]),
            Pos::EOF => panic!("a scanner error has a place in the text"),
        }
    }
    for t in r.into_tokens() {
        assert!(t.line.0 < lens.len() && t.line.1 < lens[t.line.0]);
    }
}

#[test]
fn a_token_gives_up_its_type() {
    let t = Token::new(TokenType::Identifier("name".to_string()), (1, 2));
    assert_eq!(t.line, (1, 2));
    match t.as_token_type() {
        TokenType::Identifier(s) => assert_eq!(s, "name"),
        other => panic!("expected an identifier, got {:?}", other),
    }
}

#[test]
fn scans_the_continue_keyword() {
    let (tokens, errors) = scan("continue;");
    assert!(errors.is_empty());
    assert_eq!(texts(&tokens), vec!["continue", ";"]);
    let word: Vec<char> = "continue".chars().collect();
    assert!(matches!(Scanner::scan_token(&word), Some(TokenType::Continue)));
}
