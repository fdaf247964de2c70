use un_lang::errors::{Error, ParserError, Pos, ScannerError};
use un_lang::text::{join2, join3};

#[test]
fn an_error_keeps_its_position_and_kind() {
    let e = Error::new(Pos::from((3, 14)), ScannerError::UnclosedString);
    assert!(matches!(e.pos, Pos::Known(3, 14)));
    assert!(matches!(e.err_type, ScannerError::UnclosedString));
}

#[test]
fn a_report_shows_the_position_then_the_message() {
    let e = Error::new(Pos::Known(12, 0), ParserError::UnterminatedBlock);
    assert_eq!(e.report(), "[(12,0)]::ERROR: Parser Error: Unterminated Block, Missing 'end'");
    let e = Error::new(Pos::EOF, ParserError::UnexpectedEOF);
    assert_eq!(e.report(), "[EOF]::ERROR: Parser Error: Unexpected End of File");
}

#[test]
fn texts_join_in_order() {
    assert_eq!(join2("ab", "c"), "abc");
    assert_eq!(join3("a", "", "bc"), "abc");
}
