use vstd::prelude::*;
use vstd::string::StringExecFns;

use crate::text::{join2, join3, push_decimal, decimal};
use crate::tokens::TokenType;
use crate::types::Types;

verus! {

/// Where an error was found: a (line, column) pair, or the end of input.
#[derive(Debug)]
pub enum Pos {
    Known(usize, usize),
    EOF,
}

impl From<(usize, usize)> for Pos {
    /// The position of a token's (line, column) pair.
    fn from(value: (usize, usize)) -> (r: Pos) {
        Pos::Known(value.0, value.1)
    }
}

impl vstd::std_specs::convert::FromSpecImpl<(usize, usize)> for Pos {
    open spec fn obeys_from_spec() -> bool {
        true
    }

    open spec fn from_spec(value: (usize, usize)) -> Pos {
        Pos::Known(value.0, value.1)
    }
}

/// What can be reported as text.
pub trait ErrorMessage {
    spec fn spec_message(&self) -> Seq<char>;

    fn message(&self) -> (r: String)
        ensures
            r@ == self.spec_message(),
    ;
}

/// An error of kind `T` found at a position.
#[derive(Debug)]
pub struct Error<T> {
    pub pos: Pos,
    pub err_type: T,
}

impl<T> Error<T> {
    pub fn new(pos: Pos, err_type: T) -> (r: Self)
        ensures
            r.pos == pos,
            r.err_type == err_type,
    {
        Self { pos, err_type }
    }
}

/// The report of an error: its position and the message of its kind.
pub open spec fn spec_report(pos: Pos, message: Seq<char>) -> Seq<char> {
    match pos {
        Pos::Known(l, c) => "[("@ + decimal(l as nat) + ","@ + decimal(c as nat) + ")]::ERROR: "@ + message,
        Pos::EOF => "[EOF]::ERROR: "@ + message,
    }
}

impl<T: ErrorMessage> Error<T> {
    /// The report of this error, as `spec_report` gives it.
    pub fn report(&self) -> (r: String)
        ensures
            r@ == spec_report(self.pos, self.err_type.spec_message()),
    {
        let m = self.err_type.message();
        match self.pos {
            Pos::Known(l, c) => {
                let mut r = String::from_str("[(");
                push_decimal(&mut r, l);
                r.append(",");
                push_decimal(&mut r, c);
                r.append(")]::ERROR: ");
                r.append(m.as_str());
                r
            },
            Pos::EOF => join2("[EOF]::ERROR: ", m.as_str()),
        }
    }
}

/// Errors found while scanning a line.
#[derive(Debug)]
pub enum ScannerError {
    InvalidToken(String),
    MissingSeparation,
    MultipleDecimalDivider,
    UnclosedString,
    /// A number with a `_` before its `.`. Its message text is this library's
    /// own wording.
    UnexpectedNumberSeparator,
}

/// The abstract form of a scanner error: the same variant, with the text of an
/// invalid token as a sequence of characters.
pub enum SScannerError {
    InvalidToken(Seq<char>),
    MissingSeparation,
    MultipleDecimalDivider,
    UnclosedString,
    UnexpectedNumberSeparator,
}

impl View for ScannerError {
    type V = SScannerError;

    open spec fn view(&self) -> SScannerError {
        match self {
            ScannerError::InvalidToken(t) => SScannerError::InvalidToken(t@),
            ScannerError::MissingSeparation => SScannerError::MissingSeparation,
            ScannerError::MultipleDecimalDivider => SScannerError::MultipleDecimalDivider,
            ScannerError::UnclosedString => SScannerError::UnclosedString,
            ScannerError::UnexpectedNumberSeparator => SScannerError::UnexpectedNumberSeparator,
        }
    }
}

impl ScannerError {
    pub open spec fn spec_text(&self) -> Seq<char> {
        match self {
            ScannerError::InvalidToken(t) => "Invalid Token: '"@ + t@ + "'"@,
            ScannerError::MissingSeparation => "Missing Separation, Add a space after a number"@,
            ScannerError::MultipleDecimalDivider => "Multiple Decimal Divider, Use a single '.'"@,
            ScannerError::UnclosedString => "Unclosed String, Missing '\"'"@,
            ScannerError::UnexpectedNumberSeparator => "Unexpected Number Separator, Remove the '_' before '.'"@,
        }
    }

    fn text(&self) -> (r: String)
        ensures
            r@ == self.spec_text(),
    {
        match self {
            ScannerError::InvalidToken(t) => join3("Invalid Token: '", t.as_str(), "'"),
            ScannerError::MissingSeparation => String::from_str("Missing Separation, Add a space after a number"),
            ScannerError::MultipleDecimalDivider => String::from_str("Multiple Decimal Divider, Use a single '.'"),
            ScannerError::UnclosedString => String::from_str("Unclosed String, Missing '\"'"),
            ScannerError::UnexpectedNumberSeparator => String::from_str(
                "Unexpected Number Separator, Remove the '_' before '.'",
            ),
        }
    }
}

impl ErrorMessage for ScannerError {
    open spec fn spec_message(&self) -> Seq<char> {
        "Scanner Error: "@ + self.spec_text()
    }

    fn message(&self) -> (r: String) {
        let t = self.text();
        join2("Scanner Error: ", t.as_str())
    }
}

/// Errors found while parsing a sequence of tokens.
#[derive(Debug)]
pub enum ParserError {
    InvalidToken(TokenType),
    UnexpectedEOF,
    UnclosedExpr,
    InvalidPrint,
    UnterminatedStmt,
    InvalidAssignment,
    ExpectedLeftParenthesisFnDecl(TokenType),
    MissingRightParenthesisFnDecl(TokenType),
    ExcessiveArgumentsFunDecl(TokenType),
    ExpectedIdentifier,
    ExpectedBeginBlock,
    UnterminatedBlock,
    MissingKeywordIn,
    MissingDoBlockStart,
    UnclosedCallExpr,
    ExcessiveArguments,
    MissingThenToken,
    MissingElseToken,
    UnterminatedIfElseExpr,
    ExpectedRangeStart,
    MissingRangeOperator,
    MissingRangeCondition,
    UnclosedRange,
}

impl ParserError {
    pub open spec fn spec_text(&self) -> Seq<char> {
        match self {
            ParserError::InvalidToken(t) => "Invalid Token("@ + t.spec_describe() + ")"@,
            ParserError::UnexpectedEOF => "Unexpected End of File"@,
            ParserError::UnclosedExpr => "Unclosed Expression"@,
            ParserError::InvalidPrint => "Invalid syntax for Print Statement"@,
            ParserError::UnterminatedStmt => "Unterminated Statement, Missing ';'"@,
            ParserError::InvalidAssignment => "Invalid Assignment Target"@,
            ParserError::ExpectedIdentifier => "Expected Identifier in Function Declaration"@,
            ParserError::ExpectedBeginBlock => "Expected Block Starter 'begin'"@,
            ParserError::UnterminatedBlock => "Unterminated Block, Missing 'end'"@,
            ParserError::MissingKeywordIn => "Missing Keyword 'in'"@,
            ParserError::MissingDoBlockStart => "Missing Block Starter 'do'"@,
            ParserError::UnclosedCallExpr => "Unclosed Call Expression"@,
            ParserError::ExcessiveArguments => "Excessive Arguments in Call Expression"@,
            ParserError::MissingThenToken => "Missing 'then' in Conditional Expression"@,
            ParserError::MissingElseToken => "Missing 'else' in Conditional Expression"@,
            ParserError::UnterminatedIfElseExpr => "Unterminanted Conditional Expression, Missing 'end'"@,
            ParserError::ExpectedRangeStart => "Expected Range Starter '['"@,
            ParserError::MissingRangeOperator => "Missing Range Operator '..'"@,
            ParserError::MissingRangeCondition => "Missing Range Condition ('>' or '<')"@,
            ParserError::UnclosedRange => "Unclosed Range, Missing ']'"@,
            ParserError::ExpectedLeftParenthesisFnDecl(t) => match t {
                TokenType::Identifier(s) => "Expected '(' In Function Declaration <fn "@ + s@ + ">"@,
                _ => "Expected '(' In Function Declaration <lambda>"@,
            },
            ParserError::MissingRightParenthesisFnDecl(t) => match t {
                TokenType::Identifier(s) => "Missing ')' in Function Declaration <fn "@ + s@ + ">"@,
                _ => "Missing ')' In Function Declaration <lambda>"@,
            },
            ParserError::ExcessiveArgumentsFunDecl(t) => match t {
                TokenType::Identifier(s) => "Excessive arguments in Function Declaration <fn "@ + s@ + ">, Limit is 255"@,
                _ => "Excessive arguments in Function Declaration <lambda>, Limit is 255"@,
            },
        }
    }

    fn text(&self) -> (r: String)
        ensures
            r@ == self.spec_text(),
    {
        match self {
            ParserError::InvalidToken(t) => {
                let d = t.describe();
                join3("Invalid Token(", d.as_str(), ")")
            },
            ParserError::UnexpectedEOF => String::from_str("Unexpected End of File"),
            ParserError::UnclosedExpr => String::from_str("Unclosed Expression"),
            ParserError::InvalidPrint => String::from_str("Invalid syntax for Print Statement"),
            ParserError::UnterminatedStmt => String::from_str("Unterminated Statement, Missing ';'"),
            ParserError::InvalidAssignment => String::from_str("Invalid Assignment Target"),
            ParserError::ExpectedIdentifier => String::from_str("Expected Identifier in Function Declaration"),
            ParserError::ExpectedBeginBlock => String::from_str("Expected Block Starter 'begin'"),
            ParserError::UnterminatedBlock => String::from_str("Unterminated Block, Missing 'end'"),
            ParserError::MissingKeywordIn => String::from_str("Missing Keyword 'in'"),
            ParserError::MissingDoBlockStart => String::from_str("Missing Block Starter 'do'"),
            ParserError::UnclosedCallExpr => String::from_str("Unclosed Call Expression"),
            ParserError::ExcessiveArguments => String::from_str("Excessive Arguments in Call Expression"),
            ParserError::MissingThenToken => String::from_str("Missing 'then' in Conditional Expression"),
            ParserError::MissingElseToken => String::from_str("Missing 'else' in Conditional Expression"),
            ParserError::UnterminatedIfElseExpr => String::from_str("Unterminanted Conditional Expression, Missing 'end'"),
            ParserError::ExpectedRangeStart => String::from_str("Expected Range Starter '['"),
            ParserError::MissingRangeOperator => String::from_str("Missing Range Operator '..'"),
            ParserError::MissingRangeCondition => String::from_str("Missing Range Condition ('>' or '<')"),
            ParserError::UnclosedRange => String::from_str("Unclosed Range, Missing ']'"),
            ParserError::ExpectedLeftParenthesisFnDecl(t) => match t {
                TokenType::Identifier(s) => join3("Expected '(' In Function Declaration <fn ", s.as_str(), ">"),
                _ => String::from_str("Expected '(' In Function Declaration <lambda>"),
            },
            ParserError::MissingRightParenthesisFnDecl(t) => match t {
                TokenType::Identifier(s) => join3("Missing ')' in Function Declaration <fn ", s.as_str(), ">"),
                _ => String::from_str("Missing ')' In Function Declaration <lambda>"),
            },
            ParserError::ExcessiveArgumentsFunDecl(t) => match t {
                TokenType::Identifier(s) => join3("Excessive arguments in Function Declaration <fn ", s.as_str(), ">, Limit is 255"),
                _ => String::from_str("Excessive arguments in Function Declaration <lambda>, Limit is 255"),
            },
        }
    }
}

impl ErrorMessage for ParserError {
    open spec fn spec_message(&self) -> Seq<char> {
        "Parser Error: "@ + self.spec_text()
    }

    fn message(&self) -> (r: String) {
        let t = self.text();
        join2("Parser Error: ", t.as_str())
    }
}

/// What a type check expected or found: one type, or pairs of operand types.
#[derive(Debug)]
pub enum MismatchType {
    Single(Vec<Types>),
    Multiple(Vec<(Types, Types)>),
}

/// Errors found while checking the types of an expression.
#[derive(Debug)]
pub enum TypeError {
    Mismatch { expected: MismatchType, found: MismatchType },
}

/// The abstract form of a [`MismatchType`].
pub enum SMismatchType {
    Single(Seq<Types>),
    Multiple(Seq<(Types, Types)>),
}

/// The abstract form of a [`TypeError`].
pub enum STypeError {
    Mismatch { expected: SMismatchType, found: SMismatchType },
}

impl View for MismatchType {
    type V = SMismatchType;

    open spec fn view(&self) -> SMismatchType {
        match self {
            MismatchType::Single(v) => SMismatchType::Single(v@),
            MismatchType::Multiple(v) => SMismatchType::Multiple(v@),
        }
    }
}

impl View for TypeError {
    type V = STypeError;

    open spec fn view(&self) -> STypeError {
        match self {
            TypeError::Mismatch { expected, found } => STypeError::Mismatch { expected: expected@, found: found@ },
        }
    }
}

} // verus!
