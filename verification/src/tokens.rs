use vstd::prelude::*;
use vstd::string::StringExecFns;

use crate::text::join3;

verus! {

/// The kinds of token the scanner produces.
///
/// A number token keeps the decimal text that was written in the source
/// (with its `_` separators dropped); the host reads its value from that
/// text. The library holds no floating-point value, so a number is described
/// by that text, as written (`1.50`, `007`), not by a printed value.
#[derive(Debug)]
pub enum TokenType {
    // Single char tokens
    LeftParenthesis,
    RightParenthesis,
    LeftBracket,
    RightBracket,
    Comma,
    Dot,
    Semicolon,
    Minus,
    Plus,
    Slash,
    Star,
    Equal,
    // One or two char tokens
    ColonEqual,
    BangEqual,
    EqualEqual,
    Greater,
    GreaterEqual,
    Lesser,
    LesserEqual,
    CommentStarter,
    DotDot,
    // Literals
    Identifier(String),
    ExposedFunction(String),
    String(String),
    Number(String),
    // Keywords
    Not,
    And,
    Or,
    Fun,
    Fn,
    Return,
    Break,
    Continue,
    For,
    In,
    While,
    Do,
    If,
    Then,
    Else,
    Begin,
    End,
    Nil,
    Print,
    True,
    False,
    Let,
    Comment(String),
    Space,
}

/// A token and the (line, column) at which the scanner reported it.
#[derive(Debug)]
pub struct Token {
    pub token_type: TokenType,
    pub line: (usize, usize),
}

impl TokenType {
    /// A copy of this token type, equal to it.
    pub fn duplicate(&self) -> (r: TokenType)
        ensures
            r == *self,
    {
        match self {
            TokenType::Identifier(s) => TokenType::Identifier(s.clone()),
            TokenType::ExposedFunction(s) => TokenType::ExposedFunction(s.clone()),
            TokenType::String(s) => TokenType::String(s.clone()),
            TokenType::Number(s) => TokenType::Number(s.clone()),
            TokenType::Comment(s) => TokenType::Comment(s.clone()),
            TokenType::LeftParenthesis => TokenType::LeftParenthesis,
            TokenType::RightParenthesis => TokenType::RightParenthesis,
            TokenType::LeftBracket => TokenType::LeftBracket,
            TokenType::RightBracket => TokenType::RightBracket,
            TokenType::Comma => TokenType::Comma,
            TokenType::Dot => TokenType::Dot,
            TokenType::Semicolon => TokenType::Semicolon,
            TokenType::Minus => TokenType::Minus,
            TokenType::Plus => TokenType::Plus,
            TokenType::Slash => TokenType::Slash,
            TokenType::Star => TokenType::Star,
            TokenType::Equal => TokenType::Equal,
            TokenType::ColonEqual => TokenType::ColonEqual,
            TokenType::BangEqual => TokenType::BangEqual,
            TokenType::EqualEqual => TokenType::EqualEqual,
            TokenType::Greater => TokenType::Greater,
            TokenType::GreaterEqual => TokenType::GreaterEqual,
            TokenType::Lesser => TokenType::Lesser,
            TokenType::LesserEqual => TokenType::LesserEqual,
            TokenType::CommentStarter => TokenType::CommentStarter,
            TokenType::DotDot => TokenType::DotDot,
            TokenType::Not => TokenType::Not,
            TokenType::And => TokenType::And,
            TokenType::Or => TokenType::Or,
            TokenType::Fun => TokenType::Fun,
            TokenType::Fn => TokenType::Fn,
            TokenType::Return => TokenType::Return,
            TokenType::Break => TokenType::Break,
            TokenType::Continue => TokenType::Continue,
            TokenType::For => TokenType::For,
            TokenType::In => TokenType::In,
            TokenType::While => TokenType::While,
            TokenType::Do => TokenType::Do,
            TokenType::If => TokenType::If,
            TokenType::Then => TokenType::Then,
            TokenType::Else => TokenType::Else,
            TokenType::Begin => TokenType::Begin,
            TokenType::End => TokenType::End,
            TokenType::Nil => TokenType::Nil,
            TokenType::Print => TokenType::Print,
            TokenType::True => TokenType::True,
            TokenType::False => TokenType::False,
            TokenType::Let => TokenType::Let,
            TokenType::Space => TokenType::Space,
        }
    }
}

impl Token {
    pub fn new(token_type: TokenType, line: (usize, usize)) -> (r: Token)
        ensures
            r.token_type == token_type,
            r.line == line,
    {
        Token { token_type, line }
    }

    pub fn as_token_type(self) -> (r: TokenType)
        ensures
            r == self.token_type,
    {
        self.token_type
    }

    /// A copy of this token, equal to it.
    pub fn duplicate(&self) -> (r: Token)
        ensures
            r == *self,
    {
        Token { token_type: self.token_type.duplicate(), line: self.line }
    }
}

impl TokenType {
    /// How a token of this type is written back as text.
    pub open spec fn spec_describe(self) -> Seq<char> {
        match self {
            TokenType::LeftParenthesis => "("@,
            TokenType::RightParenthesis => ")"@,
            TokenType::LeftBracket => "["@,
            TokenType::RightBracket => "]"@,
            TokenType::Comma => ","@,
            TokenType::Dot => "."@,
            TokenType::Semicolon => ";"@,
            TokenType::Minus => "-"@,
            TokenType::Plus => "+"@,
            TokenType::Slash => "/"@,
            TokenType::Star => "*"@,
            TokenType::Equal => "="@,
            TokenType::ColonEqual => ":="@,
            TokenType::BangEqual => "!="@,
            TokenType::EqualEqual => "=="@,
            TokenType::Greater => ">"@,
            TokenType::GreaterEqual => ">="@,
            TokenType::Lesser => "<"@,
            TokenType::LesserEqual => "<="@,
            TokenType::CommentStarter => "//"@,
            TokenType::DotDot => ".."@,
            TokenType::Not => "not"@,
            TokenType::And => "and"@,
            TokenType::Or => "or"@,
            TokenType::Fun => "fun"@,
            TokenType::Fn => "fn"@,
            TokenType::Return => "return"@,
            TokenType::Break => "break"@,
            TokenType::Continue => "continue"@,
            TokenType::For => "for"@,
            TokenType::In => "in"@,
            TokenType::While => "while"@,
            TokenType::Do => "do"@,
            TokenType::If => "if"@,
            TokenType::Then => "then"@,
            TokenType::Else => "else"@,
            TokenType::Begin => "begin"@,
            TokenType::End => "end"@,
            TokenType::Nil => "nil"@,
            TokenType::Print => "print"@,
            TokenType::True => "true"@,
            TokenType::False => "false"@,
            TokenType::Let => "let"@,
            TokenType::Space => " "@,
            TokenType::Identifier(name) => "identifier("@ + name@ + ")"@,
            TokenType::ExposedFunction(name) => "exposed_fn("@ + name@ + ")"@,
            TokenType::String(s) => "\""@ + s@ + "\""@,
            TokenType::Number(text) => text@,
            TokenType::Comment(c) => c@,
        }
    }

    /// The text of this token type, as `spec_describe` gives it.
    pub fn describe(&self) -> (r: String)
        ensures
            r@ == self.spec_describe(),
    {
        match self {
            TokenType::LeftParenthesis => String::from_str("("),
            TokenType::RightParenthesis => String::from_str(")"),
            TokenType::LeftBracket => String::from_str("["),
            TokenType::RightBracket => String::from_str("]"),
            TokenType::Comma => String::from_str(","),
            TokenType::Dot => String::from_str("."),
            TokenType::Semicolon => String::from_str(";"),
            TokenType::Minus => String::from_str("-"),
            TokenType::Plus => String::from_str("+"),
            TokenType::Slash => String::from_str("/"),
            TokenType::Star => String::from_str("*"),
            TokenType::Equal => String::from_str("="),
            TokenType::ColonEqual => String::from_str(":="),
            TokenType::BangEqual => String::from_str("!="),
            TokenType::EqualEqual => String::from_str("=="),
            TokenType::Greater => String::from_str(">"),
            TokenType::GreaterEqual => String::from_str(">="),
            TokenType::Lesser => String::from_str("<"),
            TokenType::LesserEqual => String::from_str("<="),
            TokenType::CommentStarter => String::from_str("//"),
            TokenType::DotDot => String::from_str(".."),
            TokenType::Not => String::from_str("not"),
            TokenType::And => String::from_str("and"),
            TokenType::Or => String::from_str("or"),
            TokenType::Fun => String::from_str("fun"),
            TokenType::Fn => String::from_str("fn"),
            TokenType::Return => String::from_str("return"),
            TokenType::Break => String::from_str("break"),
            TokenType::Continue => String::from_str("continue"),
            TokenType::For => String::from_str("for"),
            TokenType::In => String::from_str("in"),
            TokenType::While => String::from_str("while"),
            TokenType::Do => String::from_str("do"),
            TokenType::If => String::from_str("if"),
            TokenType::Then => String::from_str("then"),
            TokenType::Else => String::from_str("else"),
            TokenType::Begin => String::from_str("begin"),
            TokenType::End => String::from_str("end"),
            TokenType::Nil => String::from_str("nil"),
            TokenType::Print => String::from_str("print"),
            TokenType::True => String::from_str("true"),
            TokenType::False => String::from_str("false"),
            TokenType::Let => String::from_str("let"),
            TokenType::Space => String::from_str(" "),
            TokenType::Identifier(name) => join3("identifier(", name.as_str(), ")"),
            TokenType::ExposedFunction(name) => join3("exposed_fn(", name.as_str(), ")"),
            TokenType::String(s) => join3("\"", s.as_str(), "\""),
            TokenType::Number(text) => text.clone(),
            TokenType::Comment(c) => c.clone(),
        }
    }
}

impl TokenType {
    /// The variant of this token type, as a number; payloads do not count.
    #[verifier::opaque]
    pub open spec fn spec_kind(self) -> u8 {
        match self {
            TokenType::LeftParenthesis => 0,
            TokenType::RightParenthesis => 1,
            TokenType::LeftBracket => 2,
            TokenType::RightBracket => 3,
            TokenType::Comma => 4,
            TokenType::Dot => 5,
            TokenType::Semicolon => 6,
            TokenType::Minus => 7,
            TokenType::Plus => 8,
            TokenType::Slash => 9,
            TokenType::Star => 10,
            TokenType::Equal => 11,
            TokenType::ColonEqual => 12,
            TokenType::BangEqual => 13,
            TokenType::EqualEqual => 14,
            TokenType::Greater => 15,
            TokenType::GreaterEqual => 16,
            TokenType::Lesser => 17,
            TokenType::LesserEqual => 18,
            TokenType::CommentStarter => 19,
            TokenType::DotDot => 20,
            TokenType::Identifier(_) => 21,
            TokenType::ExposedFunction(_) => 22,
            TokenType::String(_) => 23,
            TokenType::Number(_) => 24,
            TokenType::Not => 25,
            TokenType::And => 26,
            TokenType::Or => 27,
            TokenType::Fun => 28,
            TokenType::Fn => 29,
            TokenType::Return => 30,
            TokenType::Break => 31,
            TokenType::For => 32,
            TokenType::In => 33,
            TokenType::While => 34,
            TokenType::Do => 35,
            TokenType::If => 36,
            TokenType::Then => 37,
            TokenType::Else => 38,
            TokenType::Begin => 39,
            TokenType::End => 40,
            TokenType::Nil => 41,
            TokenType::Print => 42,
            TokenType::True => 43,
            TokenType::False => 44,
            TokenType::Let => 45,
            TokenType::Comment(_) => 46,
            TokenType::Space => 47,
            TokenType::Continue => 48,
        }
    }

    pub fn kind(&self) -> (r: u8)
        ensures
            r == self.spec_kind(),
    {
        proof {
            reveal(TokenType::spec_kind);
        }
        match self {
            TokenType::LeftParenthesis => 0,
            TokenType::RightParenthesis => 1,
            TokenType::LeftBracket => 2,
            TokenType::RightBracket => 3,
            TokenType::Comma => 4,
            TokenType::Dot => 5,
            TokenType::Semicolon => 6,
            TokenType::Minus => 7,
            TokenType::Plus => 8,
            TokenType::Slash => 9,
            TokenType::Star => 10,
            TokenType::Equal => 11,
            TokenType::ColonEqual => 12,
            TokenType::BangEqual => 13,
            TokenType::EqualEqual => 14,
            TokenType::Greater => 15,
            TokenType::GreaterEqual => 16,
            TokenType::Lesser => 17,
            TokenType::LesserEqual => 18,
            TokenType::CommentStarter => 19,
            TokenType::DotDot => 20,
            TokenType::Identifier(_) => 21,
            TokenType::ExposedFunction(_) => 22,
            TokenType::String(_) => 23,
            TokenType::Number(_) => 24,
            TokenType::Not => 25,
            TokenType::And => 26,
            TokenType::Or => 27,
            TokenType::Fun => 28,
            TokenType::Fn => 29,
            TokenType::Return => 30,
            TokenType::Break => 31,
            TokenType::For => 32,
            TokenType::In => 33,
            TokenType::While => 34,
            TokenType::Do => 35,
            TokenType::If => 36,
            TokenType::Then => 37,
            TokenType::Else => 38,
            TokenType::Begin => 39,
            TokenType::End => 40,
            TokenType::Nil => 41,
            TokenType::Print => 42,
            TokenType::True => 43,
            TokenType::False => 44,
            TokenType::Let => 45,
            TokenType::Comment(_) => 46,
            TokenType::Space => 47,
            TokenType::Continue => 48,
        }
    }

    /// Whether two token types are the same variant, payloads aside.
    pub open spec fn spec_same_kind(self, other: TokenType) -> bool {
        self.spec_kind() == other.spec_kind()
    }

    pub fn same_kind(&self, other: &TokenType) -> (r: bool)
        ensures
            r == self.spec_same_kind(*other),
    {
        self.kind() == other.kind()
    }
}

/// The abstract form of a token type: the same variant, with its text as a
/// sequence of characters.
pub enum STokenType {
    LeftParenthesis,
    RightParenthesis,
    LeftBracket,
    RightBracket,
    Comma,
    Dot,
    Semicolon,
    Minus,
    Plus,
    Slash,
    Star,
    Equal,
    ColonEqual,
    BangEqual,
    EqualEqual,
    Greater,
    GreaterEqual,
    Lesser,
    LesserEqual,
    CommentStarter,
    DotDot,
    Identifier(Seq<char>),
    ExposedFunction(Seq<char>),
    String(Seq<char>),
    Number(Seq<char>),
    Not,
    And,
    Or,
    Fun,
    Fn,
    Return,
    Break,
    Continue,
    For,
    In,
    While,
    Do,
    If,
    Then,
    Else,
    Begin,
    End,
    Nil,
    Print,
    True,
    False,
    Let,
    Comment(Seq<char>),
    Space,
}

impl View for TokenType {
    type V = STokenType;

    open spec fn view(&self) -> STokenType {
        match self {
            TokenType::LeftParenthesis => STokenType::LeftParenthesis,
            TokenType::RightParenthesis => STokenType::RightParenthesis,
            TokenType::LeftBracket => STokenType::LeftBracket,
            TokenType::RightBracket => STokenType::RightBracket,
            TokenType::Comma => STokenType::Comma,
            TokenType::Dot => STokenType::Dot,
            TokenType::Semicolon => STokenType::Semicolon,
            TokenType::Minus => STokenType::Minus,
            TokenType::Plus => STokenType::Plus,
            TokenType::Slash => STokenType::Slash,
            TokenType::Star => STokenType::Star,
            TokenType::Equal => STokenType::Equal,
            TokenType::ColonEqual => STokenType::ColonEqual,
            TokenType::BangEqual => STokenType::BangEqual,
            TokenType::EqualEqual => STokenType::EqualEqual,
            TokenType::Greater => STokenType::Greater,
            TokenType::GreaterEqual => STokenType::GreaterEqual,
            TokenType::Lesser => STokenType::Lesser,
            TokenType::LesserEqual => STokenType::LesserEqual,
            TokenType::CommentStarter => STokenType::CommentStarter,
            TokenType::DotDot => STokenType::DotDot,
            TokenType::Identifier(s) => STokenType::Identifier(s@),
            TokenType::ExposedFunction(s) => STokenType::ExposedFunction(s@),
            TokenType::String(s) => STokenType::String(s@),
            TokenType::Number(s) => STokenType::Number(s@),
            TokenType::Not => STokenType::Not,
            TokenType::And => STokenType::And,
            TokenType::Or => STokenType::Or,
            TokenType::Fun => STokenType::Fun,
            TokenType::Fn => STokenType::Fn,
            TokenType::Return => STokenType::Return,
            TokenType::Break => STokenType::Break,
            TokenType::Continue => STokenType::Continue,
            TokenType::For => STokenType::For,
            TokenType::In => STokenType::In,
            TokenType::While => STokenType::While,
            TokenType::Do => STokenType::Do,
            TokenType::If => STokenType::If,
            TokenType::Then => STokenType::Then,
            TokenType::Else => STokenType::Else,
            TokenType::Begin => STokenType::Begin,
            TokenType::End => STokenType::End,
            TokenType::Nil => STokenType::Nil,
            TokenType::Print => STokenType::Print,
            TokenType::True => STokenType::True,
            TokenType::False => STokenType::False,
            TokenType::Let => STokenType::Let,
            TokenType::Comment(s) => STokenType::Comment(s@),
            TokenType::Space => STokenType::Space,
        }
    }
}

} // verus!
