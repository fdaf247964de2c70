use vstd::prelude::*;

use crate::errors::{Error, Pos, SScannerError, ScannerError};
use crate::tokens::{STokenType, Token, TokenType};

verus! {

// ---------------------------------------------------------------------------
// Characters
// ---------------------------------------------------------------------------

pub open spec fn is_ascii_alphabetic(c: char) -> bool {
    (65 <= c as u32 <= 90) || (97 <= c as u32 <= 122)
}

pub open spec fn is_ascii_digit(c: char) -> bool {
    48 <= c as u32 <= 57
}

pub open spec fn is_ascii_alphanumeric(c: char) -> bool {
    is_ascii_alphabetic(c) || is_ascii_digit(c)
}

/// Space, tab, line feed, form feed or carriage return.
pub open spec fn is_ascii_whitespace(c: char) -> bool {
    c as u32 == 32 || c as u32 == 9 || c as u32 == 10 || c as u32 == 12 || c as u32 == 13
}

/// The characters with the Unicode `White_Space` property.
pub open spec fn is_whitespace(c: char) -> bool {
    let u = c as u32;
    ||| 9 <= u <= 13
    ||| u == 32
    ||| u == 0x85
    ||| u == 0xA0
    ||| u == 0x1680
    ||| 0x2000 <= u <= 0x200A
    ||| u == 0x2028
    ||| u == 0x2029
    ||| u == 0x202F
    ||| u == 0x205F
    ||| u == 0x3000
}

pub fn char_is_ascii_alphabetic(c: char) -> (r: bool)
    ensures
        r == is_ascii_alphabetic(c),
{
    let u = c as u32;
    (65 <= u && u <= 90) || (97 <= u && u <= 122)
}

pub fn char_is_ascii_digit(c: char) -> (r: bool)
    ensures
        r == is_ascii_digit(c),
{
    let u = c as u32;
    48 <= u && u <= 57
}

pub fn char_is_ascii_whitespace(c: char) -> (r: bool)
    ensures
        r == is_ascii_whitespace(c),
{
    let u = c as u32;
    u == 32 || u == 9 || u == 10 || u == 12 || u == 13
}

pub fn char_is_whitespace(c: char) -> (r: bool)
    ensures
        r == is_whitespace(c),
{
    let u = c as u32;
    (9 <= u && u <= 13) || u == 32 || u == 0x85 || u == 0xA0 || u == 0x1680 || (0x2000 <= u && u <= 0x200A)
        || u == 0x2028 || u == 0x2029 || u == 0x202F || u == 0x205F || u == 0x3000
}

// ---------------------------------------------------------------------------
// Lexemes
// ---------------------------------------------------------------------------

/// `l` with every leading and trailing `"` removed.
pub open spec fn trim_quotes(l: Seq<char>) -> Seq<char> {
    strip_back(strip_front(l))
}

pub open spec fn strip_front(l: Seq<char>) -> Seq<char>
    decreases l.len(),
{
    if l.len() > 0 && l[0] == '"' {
        strip_front(l.drop_first())
    } else {
        l
    }
}

pub open spec fn strip_back(l: Seq<char>) -> Seq<char>
    decreases l.len(),
{
    if l.len() > 0 && l.last() == '"' {
        strip_back(l.drop_last())
    } else {
        l
    }
}

/// The token type that a lexeme stands for, if any: a keyword or punctuation,
/// blank text, a quoted string, a number, an identifier, or an exposed
/// function (`@` and an identifier, kept whole as its name).
pub open spec fn spec_scan_token(l: Seq<char>) -> Option<STokenType> {
    match spec_keyword(l) {
        Some(k) => Some(k),
        None => {
            if forall|i: int| 0 <= i < l.len() ==> is_ascii_whitespace(#[trigger] l[i]) {
                Some(STokenType::Space)
            } else if l.len() > 0 && l[0] == '"' && l.last() == '"' {
                Some(STokenType::String(trim_quotes(l)))
            } else if forall|i: int| 0 <= i < l.len() ==> is_ascii_digit(#[trigger] l[i]) {
                Some(STokenType::Number(l))
            } else if l.len() > 0 && l[0] != '-' && is_ascii_digit(l.last()) && is_ascii_digit(l[0]) && l.contains(
                '.',
            ) {
                Some(STokenType::Number(l))
            } else if l.len() > 0 && (is_ascii_alphabetic(l[0]) || l[0] == '_') && forall|i: int|
                0 <= i < l.len() ==> is_ascii_alphanumeric(#[trigger] l[i]) || l[i] == '_' {
                Some(STokenType::Identifier(l))
            } else if l.len() > 1 && l[0] == '@' && (is_ascii_alphabetic(l[1]) || l[1] == '_') && forall|i: int|
                1 <= i < l.len() ==> is_ascii_alphanumeric(#[trigger] l[i]) || l[i] == '_' {
                Some(STokenType::ExposedFunction(l))
            } else {
                None
            }
        },
    }
}

/// The keywords and punctuation of the language.
pub open spec fn spec_keyword(l: Seq<char>) -> Option<STokenType> {
    if l == "("@ {
        Some(STokenType::LeftParenthesis)
    } else if l == ")"@ {
        Some(STokenType::RightParenthesis)
    } else if l == "["@ {
        Some(STokenType::LeftBracket)
    } else if l == "]"@ {
        Some(STokenType::RightBracket)
    } else if l == ","@ {
        Some(STokenType::Comma)
    } else if l == "."@ {
        Some(STokenType::Dot)
    } else if l == ";"@ {
        Some(STokenType::Semicolon)
    } else if l == "-"@ {
        Some(STokenType::Minus)
    } else if l == "+"@ {
        Some(STokenType::Plus)
    } else if l == "/"@ {
        Some(STokenType::Slash)
    } else if l == "*"@ {
        Some(STokenType::Star)
    } else if l == "="@ {
        Some(STokenType::Equal)
    } else if l == ":="@ {
        Some(STokenType::ColonEqual)
    } else if l == "!="@ {
        Some(STokenType::BangEqual)
    } else if l == "=="@ {
        Some(STokenType::EqualEqual)
    } else if l == ">"@ {
        Some(STokenType::Greater)
    } else if l == ">="@ {
        Some(STokenType::GreaterEqual)
    } else if l == "<"@ {
        Some(STokenType::Lesser)
    } else if l == "<="@ {
        Some(STokenType::LesserEqual)
    } else if l == "//"@ {
        Some(STokenType::CommentStarter)
    } else if l == ".."@ {
        Some(STokenType::DotDot)
    } else if l == "not"@ {
        Some(STokenType::Not)
    } else if l == "and"@ {
        Some(STokenType::And)
    } else if l == "or"@ {
        Some(STokenType::Or)
    } else if l == "fun"@ {
        Some(STokenType::Fun)
    } else if l == "fn"@ {
        Some(STokenType::Fn)
    } else if l == "return"@ {
        Some(STokenType::Return)
    } else if l == "for"@ {
        Some(STokenType::For)
    } else if l == "in"@ {
        Some(STokenType::In)
    } else if l == "while"@ {
        Some(STokenType::While)
    } else if l == "do"@ {
        Some(STokenType::Do)
    } else if l == "if"@ {
        Some(STokenType::If)
    } else if l == "then"@ {
        Some(STokenType::Then)
    } else if l == "else"@ {
        Some(STokenType::Else)
    } else if l == "begin"@ {
        Some(STokenType::Begin)
    } else if l == "end"@ {
        Some(STokenType::End)
    } else if l == "nil"@ {
        Some(STokenType::Nil)
    } else if l == "print"@ {
        Some(STokenType::Print)
    } else if l == "true"@ {
        Some(STokenType::True)
    } else if l == "false"@ {
        Some(STokenType::False)
    } else if l == "let"@ {
        Some(STokenType::Let)
    } else if l == "break"@ {
        Some(STokenType::Break)
    } else if l == "continue"@ {
        Some(STokenType::Continue)
    } else {
        None
    }
}

// ---------------------------------------------------------------------------
// Scanning a line
// ---------------------------------------------------------------------------

/// Turns lines of text into tokens.
#[derive(Debug)]
pub struct Scanner;

/// The tokens and the errors found so far, each with its (line, column).
pub struct ScanState {
    pub tokens: Seq<(STokenType, (usize, usize))>,
    pub errors: Seq<(Pos, SScannerError)>,
}

pub open spec fn empty_scan() -> ScanState {
    ScanState { tokens: Seq::empty(), errors: Seq::empty() }
}

/// The token that `literal` stands for, reported at `pos`; or the error that it
/// is no token.
pub open spec fn spec_add_token(st: ScanState, pos: (usize, usize), literal: Seq<char>) -> ScanState {
    match spec_scan_token(literal) {
        Some(tt) => ScanState { tokens: st.tokens.push((tt, pos)), errors: st.errors },
        None => ScanState {
            tokens: st.tokens,
            errors: st.errors.push((Pos::Known(pos.0, pos.1), SScannerError::InvalidToken(literal))),
        },
    }
}

pub open spec fn spec_add_error(st: ScanState, pos: (usize, usize), e: SScannerError) -> ScanState {
    ScanState { tokens: st.tokens, errors: st.errors.push((Pos::Known(pos.0, pos.1), e)) }
}

pub open spec fn spec_push_token(st: ScanState, tt: STokenType, pos: (usize, usize)) -> ScanState {
    ScanState { tokens: st.tokens.push((tt, pos)), errors: st.errors }
}

/// Whether `c[i..k]` followed by `c[k]` still reads as a token.
pub open spec fn grows(c: Seq<char>, i: nat, k: nat) -> bool {
    k < c.len() && spec_scan_token(c.subrange(i as int, k + 1 as int)) is Some
}

/// An identifier or keyword that started at `i`, read up to `k`: it grows while
/// the next character is a letter or `_` (or a digit, once it has two
/// characters) and the longer text still reads as a token. One that the end
/// of the line ends is a token like any other: the line's end is a separator.
pub open spec fn spec_ident_from(c: Seq<char>, v: usize, i: nat, k: nat, st: ScanState) -> (ScanState, nat)
    decreases c.len() - k,
{
    if k >= c.len() {
        (spec_add_token(st, (v, (c.len() - 1) as usize), c.subrange(i as int, c.len() as int)), c.len())
    } else {
        let ch = c[k as int];
        if ch == '_' || is_ascii_alphabetic(ch) || (is_ascii_digit(ch) && k - i > 1) {
            if grows(c, i, k + 1) {
                spec_ident_from(c, v, i, k + 1, st)
            } else {
                (spec_add_token(st, (v, k as usize), c.subrange(i as int, k + 1 as int)), k + 1)
            }
        } else {
            (spec_add_token(st, (v, k as usize), c.subrange(i as int, k as int)), k)
        }
    }
}

/// A number read from `k`: digits, at most one `.`, and `_` separators that are
/// dropped. It ends at the first other character, which must be blank or `;`,
/// or at the end of the line, which gives the number as a token too.
pub open spec fn spec_number_from(
    c: Seq<char>,
    v: usize,
    k: nat,
    seen_dot: bool,
    seen_underscore: bool,
    literal: Seq<char>,
    st: ScanState,
) -> (ScanState, nat)
    decreases c.len() - k,
{
    if k >= c.len() {
        (spec_add_token(st, (v, (c.len() - 1) as usize), literal), c.len())
    } else {
        let ch = c[k as int];
        if ch == '.' {
            let st1 = if seen_underscore {
                spec_add_error(st, (v, if k > 0 { (k - 1) as usize } else { 0 }), SScannerError::UnexpectedNumberSeparator)
            } else {
                st
            };
            if seen_dot {
                spec_number_from(c, v, k + 1, seen_dot, seen_underscore, literal,
                    spec_add_error(st1, (v, k as usize), SScannerError::InvalidToken(seq!['.'])))
            } else {
                spec_number_from(c, v, k + 1, true, seen_underscore, literal.push('.'), st1)
            }
        } else if ch == '_' {
            let st1 = if literal.len() > 0 && literal.last() == '.' {
                spec_add_error(st, (v, k as usize), SScannerError::InvalidToken(seq!['_']))
            } else {
                st
            };
            spec_number_from(c, v, k + 1, seen_dot, true, literal, st1)
        } else if is_ascii_digit(ch) {
            spec_number_from(c, v, k + 1, seen_dot, false, literal.push(ch), st)
        } else {
            let st1 = if !is_whitespace(ch) && ch != ';' {
                spec_add_error(st, (v, k as usize), SScannerError::MissingSeparation)
            } else {
                st
            };
            (spec_add_token(st1, (v, k as usize), literal), k)
        }
    }
}

/// A string read from `k`, after its opening quote, up to its closing quote.
pub open spec fn spec_string_from(c: Seq<char>, v: usize, k: nat, literal: Seq<char>, st: ScanState) -> (ScanState, nat)
    decreases c.len() - k,
{
    if k >= c.len() {
        (st, k)
    } else if c[k as int] == '"' {
        (spec_add_token(st, (v, k as usize), literal.push('"')), k + 1)
    } else {
        let st1 = if k + 1 >= c.len() {
            spec_add_error(st, (v, k as usize), SScannerError::UnclosedString)
        } else {
            st
        };
        spec_string_from(c, v, k + 1, literal.push(c[k as int]), st1)
    }
}

/// A `/` at `i`: a division sign, or, before another `/`, a comment that runs
/// to the end of the line.
pub open spec fn spec_comment(c: Seq<char>, v: usize, i: nat, st: ScanState) -> (ScanState, nat) {
    if i + 1 < c.len() && c[i + 1 as int] == '/' {
        let end_h = if c.len() > i + 2 { (c.len() - 1) as usize } else { i as usize };
        let st1 = spec_push_token(st, STokenType::CommentStarter, (v, i as usize));
        (spec_push_token(st1, STokenType::Comment(c.subrange(i + 2 as int, c.len() as int)), (v, end_h)), c.len())
    } else {
        (spec_push_token(st, STokenType::Slash, (v, i as usize)), i + 1)
    }
}

/// Punctuation read from `k`, after `literal`: it grows while the text with
/// the next character still reads as a token.
pub open spec fn spec_others_from(c: Seq<char>, v: usize, k: nat, literal: Seq<char>, st: ScanState) -> (ScanState, nat)
    decreases c.len() - k,
{
    if k >= c.len() {
        (st, k)
    } else {
        let lit = literal.push(c[k as int]);
        if k + 1 < c.len() && spec_scan_token(lit.push(c[k + 1 as int])) is Some {
            spec_others_from(c, v, k + 1, lit, st)
        } else {
            (spec_add_token(st, (v, k as usize), lit), k + 1)
        }
    }
}

/// The position `j` reached by a scanner that started at `i` on a line of
/// `n` characters (it always moves past `i` and stays on the line, so this is
/// `j` itself).
pub open spec fn past(i: nat, j: nat, n: nat) -> nat {
    if i < j <= n {
        j
    } else {
        i + 1
    }
}

/// The tokens and errors of line `v` from character `i` on, after `st`.
pub open spec fn spec_scan_from(c: Seq<char>, v: usize, i: nat, st: ScanState) -> ScanState
    decreases c.len() - i,
{
    if i >= c.len() {
        st
    } else {
        let ch = c[i as int];
        if is_whitespace(ch) {
            spec_scan_from(c, v, i + 1, st)
        } else {
            let (st2, j) = if is_ascii_alphabetic(ch) || ch == '_' || ch == '@' {
                spec_ident_from(c, v, i, i + 1, st)
            } else if is_ascii_digit(ch) {
                spec_number_from(c, v, i, false, false, Seq::empty(), st)
            } else if ch == '"' {
                spec_string_from(c, v, i + 1, seq!['"'], st)
            } else if ch == '/' {
                spec_comment(c, v, i, st)
            } else {
                spec_others_from(c, v, i, Seq::empty(), st)
            };
            spec_scan_from(c, v, past(i, j, c.len()), st2)
        }
    }
}

/// The tokens and errors of the line `c`, numbered `v`.
pub open spec fn spec_scan_line(c: Seq<char>, v: usize) -> ScanState {
    spec_scan_from(c, v, 0, empty_scan())
}

/// The tokens and errors of the lines, each numbered by its index, one after
/// the other.
pub open spec fn spec_scan_lines(lines: Seq<Seq<char>>) -> ScanState
    decreases lines.len(),
{
    if lines.len() == 0 {
        empty_scan()
    } else {
        let before = spec_scan_lines(lines.drop_last());
        let last = spec_scan_line(lines.last(), (lines.len() - 1) as usize);
        ScanState { tokens: before.tokens + last.tokens, errors: before.errors + last.errors }
    }
}

// ---------------------------------------------------------------------------
// The scanner
// ---------------------------------------------------------------------------

/// The characters of `s`, in order.
pub fn chars_of(s: &str) -> (r: Vec<char>)
    ensures
        r@ == s@,
{
    broadcast use vstd::string::group_string_axioms;

    let mut v: Vec<char> = Vec::new();
    for c in it: s.chars()
        invariant
            v@ == it.seq().take(it.index() as int),
            it.seq() == s@,
    {
        v.push(c);
    }
    v
}

/// The characters `chars[from..to]`.
fn slice_of(chars: &Vec<char>, from: usize, to: usize) -> (r: Vec<char>)
    requires
        from <= to <= chars@.len(),
    ensures
        r@ == chars@.subrange(from as int, to as int),
{
    let mut r: Vec<char> = Vec::new();
    let mut k = from;
    while k < to
        invariant
            from <= k <= to <= chars@.len(),
            r@ == chars@.subrange(from as int, k as int),
        decreases to - k,
    {
        r.push(chars[k]);
        k = k + 1;
        assert(r@ =~= chars@.subrange(from as int, k as int));
    }
    r
}

/// A string of the characters `chars[from..to]`.
fn string_of(chars: &Vec<char>, from: usize, to: usize) -> (r: String)
    requires
        from <= to <= chars@.len(),
    ensures
        r@ == chars@.subrange(from as int, to as int),
{
    let mut r = String::new();
    let mut k = from;
    while k < to
        invariant
            from <= k <= to <= chars@.len(),
            r@ == chars@.subrange(from as int, k as int),
        decreases to - k,
    {
        r.push(chars[k]);
        k = k + 1;
        assert(r@ =~= chars@.subrange(from as int, k as int));
    }
    r
}

/// Whether the characters of `lit` are those of `kw`.
fn eq_lit(lit: &Vec<char>, kw: &str) -> (r: bool)
    ensures
        r == (lit@ == kw@),
{
    let n = kw.unicode_len();
    if lit.len() != n {
        return false;
    }
    let mut i: usize = 0;
    while i < n
        invariant
            i <= n,
            n == kw@.len(),
            lit@.len() == n,
            forall|j: int| 0 <= j < i ==> lit@[j] == kw@[j],
        decreases n - i,
    {
        if lit[i] != kw.get_char(i) {
            return false;
        }
        i = i + 1;
    }
    assert(lit@ =~= kw@);
    true
}

/// The abstract form of an optional token type.
pub open spec fn opt_view(o: Option<TokenType>) -> Option<STokenType> {
    match o {
        Some(t) => Some(t@),
        None => None,
    }
}

fn keyword(lit: &Vec<char>) -> (r: Option<TokenType>)
    ensures
        opt_view(r) == spec_keyword(lit@),
{
    if eq_lit(lit, "(") {
        return Some(TokenType::LeftParenthesis);
    }
    if eq_lit(lit, ")") {
        return Some(TokenType::RightParenthesis);
    }
    if eq_lit(lit, "[") {
        return Some(TokenType::LeftBracket);
    }
    if eq_lit(lit, "]") {
        return Some(TokenType::RightBracket);
    }
    if eq_lit(lit, ",") {
        return Some(TokenType::Comma);
    }
    if eq_lit(lit, ".") {
        return Some(TokenType::Dot);
    }
    if eq_lit(lit, ";") {
        return Some(TokenType::Semicolon);
    }
    if eq_lit(lit, "-") {
        return Some(TokenType::Minus);
    }
    if eq_lit(lit, "+") {
        return Some(TokenType::Plus);
    }
    if eq_lit(lit, "/") {
        return Some(TokenType::Slash);
    }
    if eq_lit(lit, "*") {
        return Some(TokenType::Star);
    }
    if eq_lit(lit, "=") {
        return Some(TokenType::Equal);
    }
    if eq_lit(lit, ":=") {
        return Some(TokenType::ColonEqual);
    }
    if eq_lit(lit, "!=") {
        return Some(TokenType::BangEqual);
    }
    if eq_lit(lit, "==") {
        return Some(TokenType::EqualEqual);
    }
    if eq_lit(lit, ">") {
        return Some(TokenType::Greater);
    }
    if eq_lit(lit, ">=") {
        return Some(TokenType::GreaterEqual);
    }
    if eq_lit(lit, "<") {
        return Some(TokenType::Lesser);
    }
    if eq_lit(lit, "<=") {
        return Some(TokenType::LesserEqual);
    }
    if eq_lit(lit, "//") {
        return Some(TokenType::CommentStarter);
    }
    if eq_lit(lit, "..") {
        return Some(TokenType::DotDot);
    }
    if eq_lit(lit, "not") {
        return Some(TokenType::Not);
    }
    if eq_lit(lit, "and") {
        return Some(TokenType::And);
    }
    if eq_lit(lit, "or") {
        return Some(TokenType::Or);
    }
    if eq_lit(lit, "fun") {
        return Some(TokenType::Fun);
    }
    if eq_lit(lit, "fn") {
        return Some(TokenType::Fn);
    }
    if eq_lit(lit, "return") {
        return Some(TokenType::Return);
    }
    if eq_lit(lit, "for") {
        return Some(TokenType::For);
    }
    if eq_lit(lit, "in") {
        return Some(TokenType::In);
    }
    if eq_lit(lit, "while") {
        return Some(TokenType::While);
    }
    if eq_lit(lit, "do") {
        return Some(TokenType::Do);
    }
    if eq_lit(lit, "if") {
        return Some(TokenType::If);
    }
    if eq_lit(lit, "then") {
        return Some(TokenType::Then);
    }
    if eq_lit(lit, "else") {
        return Some(TokenType::Else);
    }
    if eq_lit(lit, "begin") {
        return Some(TokenType::Begin);
    }
    if eq_lit(lit, "end") {
        return Some(TokenType::End);
    }
    if eq_lit(lit, "nil") {
        return Some(TokenType::Nil);
    }
    if eq_lit(lit, "print") {
        return Some(TokenType::Print);
    }
    if eq_lit(lit, "true") {
        return Some(TokenType::True);
    }
    if eq_lit(lit, "false") {
        return Some(TokenType::False);
    }
    if eq_lit(lit, "let") {
        return Some(TokenType::Let);
    }
    if eq_lit(lit, "break") {
        return Some(TokenType::Break);
    }
    if eq_lit(lit, "continue") {
        return Some(TokenType::Continue);
    }
    None
}

fn all_ascii_whitespace(l: &Vec<char>) -> (r: bool)
    ensures
        r == forall|i: int| 0 <= i < l@.len() ==> is_ascii_whitespace(#[trigger] l@[i]),
{
    let mut i: usize = 0;
    while i < l.len()
        invariant
            i <= l@.len(),
            forall|j: int| 0 <= j < i ==> is_ascii_whitespace(#[trigger] l@[j]),
        decreases l@.len() - i,
    {
        if !char_is_ascii_whitespace(l[i]) {
            return false;
        }
        i = i + 1;
    }
    true
}

fn all_ascii_digits(l: &Vec<char>) -> (r: bool)
    ensures
        r == forall|i: int| 0 <= i < l@.len() ==> is_ascii_digit(#[trigger] l@[i]),
{
    let mut i: usize = 0;
    while i < l.len()
        invariant
            i <= l@.len(),
            forall|j: int| 0 <= j < i ==> is_ascii_digit(#[trigger] l@[j]),
        decreases l@.len() - i,
    {
        if !char_is_ascii_digit(l[i]) {
            return false;
        }
        i = i + 1;
    }
    true
}

fn all_ident_chars(l: &Vec<char>, from: usize) -> (r: bool)
    ensures
        r == forall|i: int| from <= i < l@.len() ==> is_ascii_alphanumeric(#[trigger] l@[i]) || l@[i] == '_',
{
    let mut i: usize = from;
    while i < l.len()
        invariant
            from <= i,
            forall|j: int| from <= j < i ==> is_ascii_alphanumeric(#[trigger] l@[j]) || l@[j] == '_',
        decreases l@.len() - i,
    {
        let c = l[i];
        if !(char_is_ascii_alphabetic(c) || char_is_ascii_digit(c) || c == '_') {
            return false;
        }
        i = i + 1;
    }
    true
}

fn contains_dot(l: &Vec<char>) -> (r: bool)
    ensures
        r == l@.contains('.'),
{
    let mut i: usize = 0;
    while i < l.len()
        invariant
            i <= l@.len(),
            forall|j: int| 0 <= j < i ==> l@[j] != '.',
        decreases l@.len() - i,
    {
        if l[i] == '.' {
            return true;
        }
        i = i + 1;
    }
    false
}

/// The text of a quoted lexeme without its leading and trailing quotes.
fn trimmed(l: &Vec<char>) -> (r: String)
    ensures
        r@ == trim_quotes(l@),
{
    let n = l.len();
    let mut a: usize = 0;
    assert(l@.subrange(0, n as int) =~= l@);
    while a < n && l[a] == '"'
        invariant
            a <= n == l@.len(),
            strip_front(l@) == strip_front(l@.subrange(a as int, n as int)),
        decreases n - a,
    {
        assert(l@.subrange(a as int, n as int).drop_first() =~= l@.subrange(a + 1, n as int));
        a = a + 1;
    }
    assert(strip_front(l@) == l@.subrange(a as int, n as int)) by {
        assert(l@.subrange(a as int, n as int).len() == 0 || l@.subrange(a as int, n as int)[0] != '"');
    }
    let mut b: usize = n;
    while b > a && l[b - 1] == '"'
        invariant
            a <= b <= n == l@.len(),
            strip_back(l@.subrange(a as int, n as int)) == strip_back(l@.subrange(a as int, b as int)),
        decreases b,
    {
        assert(l@.subrange(a as int, b as int).drop_last() =~= l@.subrange(a as int, b - 1));
        b = b - 1;
    }
    assert(strip_back(l@.subrange(a as int, b as int)) == l@.subrange(a as int, b as int)) by {
        let m = l@.subrange(a as int, b as int);
        assert(m.len() == 0 || m.last() != '"');
    }
    string_of(l, a, b)
}

impl Scanner {
    /// The token type that a lexeme stands for, as `spec_scan_token` gives it.
    pub fn scan_token(literal: &Vec<char>) -> (r: Option<TokenType>)
        ensures
            opt_view(r) == spec_scan_token(literal@),
    {
        let k = keyword(literal);
        if k.is_some() {
            return k;
        }
        let n = literal.len();
        assert(literal@.subrange(0, n as int) =~= literal@);
        if all_ascii_whitespace(literal) {
            Some(TokenType::Space)
        } else if n > 0 && literal[0] == '"' && literal[n - 1] == '"' {
            Some(TokenType::String(trimmed(literal)))
        } else if all_ascii_digits(literal) {
            Some(TokenType::Number(string_of(literal, 0, n)))
        } else if n > 0 && literal[0] != '-' && char_is_ascii_digit(literal[n - 1]) && char_is_ascii_digit(literal[0])
            && contains_dot(literal) {
            Some(TokenType::Number(string_of(literal, 0, n)))
        } else if n > 0 && (char_is_ascii_alphabetic(literal[0]) || literal[0] == '_') && all_ident_chars(literal, 0) {
            Some(TokenType::Identifier(string_of(literal, 0, n)))
        } else if n > 1 && literal[0] == '@' && (char_is_ascii_alphabetic(literal[1]) || literal[1] == '_')
            && all_ident_chars(literal, 1) {
            Some(TokenType::ExposedFunction(string_of(literal, 0, n)))
        } else {
            None
        }
    }
}

/// The abstract form of a token: its type and its (line, column).
pub open spec fn token_view(t: Token) -> (STokenType, (usize, usize)) {
    (t.token_type@, t.line)
}

/// The abstract form of a scanner error: its position and kind.
pub open spec fn scan_error_view(e: Error<ScannerError>) -> (Pos, SScannerError) {
    (e.pos, e.err_type@)
}

/// The tokens found on lines of text and the errors met, in the order found.
#[derive(Debug)]
pub struct ScannerResult {
    errors: Vec<Error<ScannerError>>,
    tokens: Vec<Token>,
}

impl View for ScannerResult {
    type V = ScanState;

    closed spec fn view(&self) -> ScanState {
        ScanState {
            tokens: self.tokens@.map_values(|t: Token| token_view(t)),
            errors: self.errors@.map_values(|e: Error<ScannerError>| scan_error_view(e)),
        }
    }
}

impl ScannerResult {
    /// A result with no tokens and no errors.
    pub fn new() -> (r: Self)
        ensures
            r@ == empty_scan(),
    {
        let r = ScannerResult { errors: Vec::new(), tokens: Vec::new() };
        assert(r@.tokens =~= Seq::<(STokenType, (usize, usize))>::empty());
        assert(r@.errors =~= Seq::<(Pos, SScannerError)>::empty());
        r
    }

    /// Moves the tokens and errors of `other` to the end of these.
    pub fn append(&mut self, other: &mut Self)
        ensures
            final(self)@ == (ScanState {
                tokens: old(self)@.tokens + old(other)@.tokens,
                errors: old(self)@.errors + old(other)@.errors,
            }),
            final(other)@ == empty_scan(),
    {
        let ghost a = self@;
        let ghost b = other@;
        self.tokens.append(&mut other.tokens);
        self.errors.append(&mut other.errors);
        assert(self@.tokens =~= a.tokens + b.tokens);
        assert(self@.errors =~= a.errors + b.errors);
        assert(other@.tokens =~= Seq::<(STokenType, (usize, usize))>::empty());
        assert(other@.errors =~= Seq::<(Pos, SScannerError)>::empty());
    }

    fn push_token(&mut self, tt: TokenType, pos: (usize, usize))
        ensures
            final(self)@ == spec_push_token(old(self)@, tt@, pos),
    {
        let ghost a = self@;
        self.tokens.push(Token::new(tt, pos));
        assert(self@.tokens =~= a.tokens.push((tt@, pos)));
        assert(self@.errors =~= a.errors);
    }

    fn push_error(&mut self, pos: (usize, usize), e: ScannerError)
        ensures
            final(self)@ == spec_add_error(old(self)@, pos, e@),
    {
        let ghost a = self@;
        let ghost ev = e@;
        self.errors.push(Error::new(Pos::from(pos), e));
        assert(self@.errors =~= a.errors.push((Pos::Known(pos.0, pos.1), ev)));
        assert(self@.tokens =~= a.tokens);
    }

    /// Adds the token that `literal` stands for at `pos`, or the error that it
    /// stands for none.
    fn add_token(&mut self, pos: (usize, usize), literal: &Vec<char>)
        ensures
            final(self)@ == spec_add_token(old(self)@, pos, literal@),
    {
        match Scanner::scan_token(literal) {
            Some(tt) => self.push_token(tt, pos),
            None => {
                let text = string_of(literal, 0, literal.len());
                assert(literal@.subrange(0, literal@.len() as int) =~= literal@);
                self.push_error(pos, ScannerError::InvalidToken(text));
            },
        }
    }

    pub fn into_tokens(self) -> (r: Vec<Token>)
        ensures
            r@.map_values(|t: Token| token_view(t)) == self@.tokens,
    {
        self.tokens
    }

    pub fn into_err(self) -> (r: Vec<Error<ScannerError>>)
        ensures
            r@.map_values(|e: Error<ScannerError>| scan_error_view(e)) == self@.errors,
    {
        self.errors
    }

    pub fn has_err(&self) -> (r: bool)
        ensures
            r == (self@.errors.len() > 0),
    {
        !self.errors.is_empty()
    }
}

impl Scanner {
    /// Whether `chars[i..k]` followed by `chars[k]` still reads as a token.
    fn grows(chars: &Vec<char>, i: usize, k: usize) -> (r: bool)
        requires
            i <= k <= chars@.len(),
        ensures
            r == grows(chars@, i as nat, k as nat),
    {
        if k < chars.len() {
            let l = slice_of(chars, i, k + 1);
            Scanner::scan_token(&l).is_some()
        } else {
            false
        }
    }

    fn scan_identifier(res: &mut ScannerResult, chars: &Vec<char>, i: usize, v: usize) -> (j: usize)
        requires
            i < chars@.len(),
        ensures
            (final(res)@, j as nat) == spec_ident_from(chars@, v, i as nat, (i + 1) as nat, old(res)@),
            i < j <= chars@.len(),
    {
        let n = chars.len();
        let mut k = i + 1;
        while k < n
            invariant
                i < k <= n == chars@.len(),
                *res == *old(res),
                spec_ident_from(chars@, v, i as nat, (i + 1) as nat, old(res)@) == spec_ident_from(
                    chars@,
                    v,
                    i as nat,
                    k as nat,
                    old(res)@,
                ),
            decreases n - k,
        {
            let ch = chars[k];
            if ch == '_' || char_is_ascii_alphabetic(ch) || (char_is_ascii_digit(ch) && k - i > 1) {
                if Scanner::grows(chars, i, k + 1) {
                    k = k + 1;
                } else {
                    let l = slice_of(chars, i, k + 1);
                    res.add_token((v, k), &l);
                    return k + 1;
                }
            } else {
                let l = slice_of(chars, i, k);
                res.add_token((v, k), &l);
                return k;
            }
        }
        let l = slice_of(chars, i, n);
        res.add_token((v, n - 1), &l);
        n
    }

    fn scan_number(res: &mut ScannerResult, chars: &Vec<char>, i: usize, v: usize) -> (j: usize)
        requires
            i < chars@.len(),
            is_ascii_digit(chars@[i as int]),
        ensures
            (final(res)@, j as nat) == spec_number_from(chars@, v, i as nat, false, false, Seq::empty(), old(res)@),
            i < j <= chars@.len(),
    {
        let n = chars.len();
        let mut k = i;
        let mut seen_dot = false;
        let mut seen_underscore = false;
        let mut literal: Vec<char> = Vec::new();
        while k < n
            invariant
                i <= k <= n == chars@.len(),
                is_ascii_digit(chars@[i as int]),
                k == i ==> literal@.len() == 0 && !seen_dot && !seen_underscore && *res == *old(res),
                spec_number_from(chars@, v, i as nat, false, false, Seq::empty(), old(res)@) == spec_number_from(
                    chars@,
                    v,
                    k as nat,
                    seen_dot,
                    seen_underscore,
                    literal@,
                    res@,
                ),
            decreases n - k,
        {
            let ch = chars[k];
            if ch == '.' {
                if seen_underscore {
                    let h = if k > 0 { k - 1 } else { 0 };
                    res.push_error((v, h), ScannerError::UnexpectedNumberSeparator);
                }
                if seen_dot {
                    let mut t = String::new();
                    t.push('.');
                    assert(t@ =~= seq!['.']);
                    res.push_error((v, k), ScannerError::InvalidToken(t));
                } else {
                    literal.push('.');
                    seen_dot = true;
                }
            } else if ch == '_' {
                let n_lit = literal.len();
                if n_lit > 0 && literal[n_lit - 1] == '.' {
                    let mut t = String::new();
                    t.push('_');
                    assert(t@ =~= seq!['_']);
                    res.push_error((v, k), ScannerError::InvalidToken(t));
                }
                seen_underscore = true;
            } else if char_is_ascii_digit(ch) {
                literal.push(ch);
                seen_underscore = false;
            } else {
                if !char_is_whitespace(ch) && ch != ';' {
                    res.push_error((v, k), ScannerError::MissingSeparation);
                }
                res.add_token((v, k), &literal);
                return k;
            }
            k = k + 1;
        }
        res.add_token((v, n - 1), &literal);
        n
    }

    fn scan_string(res: &mut ScannerResult, chars: &Vec<char>, i: usize, v: usize) -> (j: usize)
        requires
            i < chars@.len(),
            chars@[i as int] == '"',
        ensures
            (final(res)@, j as nat) == spec_string_from(chars@, v, (i + 1) as nat, seq!['"'], old(res)@),
            i < j <= chars@.len(),
    {
        let n = chars.len();
        let mut k = i + 1;
        let mut literal: Vec<char> = Vec::new();
        literal.push('"');
        assert(literal@ =~= seq!['"']);
        while k < n
            invariant
                i < k <= n == chars@.len(),
                spec_string_from(chars@, v, (i + 1) as nat, seq!['"'], old(res)@) == spec_string_from(
                    chars@,
                    v,
                    k as nat,
                    literal@,
                    res@,
                ),
            decreases n - k,
        {
            let ch = chars[k];
            if ch == '"' {
                literal.push(ch);
                res.add_token((v, k), &literal);
                return k + 1;
            }
            literal.push(ch);
            if k + 1 >= n {
                res.push_error((v, k), ScannerError::UnclosedString);
            }
            k = k + 1;
        }
        k
    }

    fn scan_comment(res: &mut ScannerResult, chars: &Vec<char>, i: usize, v: usize) -> (j: usize)
        requires
            i < chars@.len(),
        ensures
            (final(res)@, j as nat) == spec_comment(chars@, v, i as nat, old(res)@),
            i < j <= chars@.len(),
    {
        let n = chars.len();
        if i + 1 < n && chars[i + 1] == '/' {
            res.push_token(TokenType::CommentStarter, (v, i));
            let end_h = if n > i + 2 { n - 1 } else { i };
            let text = string_of(chars, i + 2, n);
            res.push_token(TokenType::Comment(text), (v, end_h));
            n
        } else {
            res.push_token(TokenType::Slash, (v, i));
            i + 1
        }
    }

    fn scan_others(res: &mut ScannerResult, chars: &Vec<char>, i: usize, v: usize) -> (j: usize)
        requires
            i < chars@.len(),
        ensures
            (final(res)@, j as nat) == spec_others_from(chars@, v, i as nat, Seq::empty(), old(res)@),
            i < j <= chars@.len(),
    {
        let n = chars.len();
        let mut k = i;
        let mut literal: Vec<char> = Vec::new();
        while k < n
            invariant
                i <= k <= n == chars@.len(),
                k == i ==> literal@.len() == 0 && *res == *old(res),
                *res == *old(res),
                spec_others_from(chars@, v, i as nat, Seq::empty(), old(res)@) == spec_others_from(
                    chars@,
                    v,
                    k as nat,
                    literal@,
                    res@,
                ),
            decreases n - k,
        {
            literal.push(chars[k]);
            let grows = if k + 1 < n {
                let mut next = slice_of(&literal, 0, literal.len());
                assert(literal@.subrange(0, literal@.len() as int) =~= literal@);
                next.push(chars[k + 1]);
                Scanner::scan_token(&next).is_some()
            } else {
                false
            };
            if grows {
                k = k + 1;
            } else {
                res.add_token((v, k), &literal);
                return k + 1;
            }
        }
        k
    }

    /// The tokens and errors of one line of text, numbered `pos_v`, as
    /// `spec_scan_line` gives them.
    pub fn scan_line(line: String, pos_v: usize) -> (r: ScannerResult)
        ensures
            r@ == spec_scan_line(line@, pos_v),
    {
        let chars = chars_of(line.as_str());
        let n = chars.len();
        let mut res = ScannerResult::new();
        let mut i: usize = 0;
        while i < n
            invariant
                i <= n == chars@.len(),
                chars@ == line@,
                spec_scan_line(line@, pos_v) == spec_scan_from(chars@, pos_v, i as nat, res@),
            decreases n - i,
        {
            let ch = chars[i];
            if char_is_whitespace(ch) {
                i = i + 1;
            } else {
                let j = if char_is_ascii_alphabetic(ch) || ch == '_' || ch == '@' {
                    Scanner::scan_identifier(&mut res, &chars, i, pos_v)
                } else if char_is_ascii_digit(ch) {
                    Scanner::scan_number(&mut res, &chars, i, pos_v)
                } else if ch == '"' {
                    Scanner::scan_string(&mut res, &chars, i, pos_v)
                } else if ch == '/' {
                    Scanner::scan_comment(&mut res, &chars, i, pos_v)
                } else {
                    Scanner::scan_others(&mut res, &chars, i, pos_v)
                };
                i = j;
            }
        }
        res
    }

    /// The tokens and errors of lines of text, each numbered by its index, as
    /// `spec_scan_lines` gives them.
    pub fn scan_lines(lines: Vec<String>) -> (r: ScannerResult)
        ensures
            r@ == spec_scan_lines(lines@.map_values(|l: String| l@)),
    {
        let mut res = ScannerResult::new();
        let mut i: usize = 0;
        let ghost views = lines@.map_values(|l: String| l@);
        assert(views.take(0) =~= Seq::<Seq<char>>::empty());
        while i < lines.len()
            invariant
                i <= lines@.len(),
                views == lines@.map_values(|l: String| l@),
                res@ == spec_scan_lines(views.take(i as int)),
            decreases lines@.len() - i,
        {
            let mut line_result = Scanner::scan_line(lines[i].clone(), i);
            res.append(&mut line_result);
            assert(views.take(i + 1).drop_last() =~= views.take(i as int));
            i = i + 1;
        }
        assert(views.take(lines@.len() as int) =~= views);
        res
    }
}

} // verus!

verus! {

/// A lexeme that is no keyword reads as what its characters make it: digits
/// alone are a number with that text; a letter or `_` followed by letters,
/// digits and `_` is an identifier with that name; `@` followed by such a
/// name is an exposed function, named with its `@`.
pub proof fn law_scan_token_classifies(l: Seq<char>)
    requires
        spec_keyword(l) is None,
        l.len() > 0,
    ensures
        (forall|i: int| 0 <= i < l.len() ==> is_ascii_digit(#[trigger] l[i])) ==> spec_scan_token(l) == Some(
            STokenType::Number(l),
        ),
        (is_ascii_alphabetic(l[0]) || l[0] == '_') && (forall|i: int|
            0 <= i < l.len() ==> is_ascii_alphanumeric(#[trigger] l[i]) || l[i] == '_') ==> spec_scan_token(l)
            == Some(STokenType::Identifier(l)),
        l.len() > 1 && l[0] == '@' && (is_ascii_alphabetic(l[1]) || l[1] == '_') && (forall|i: int|
            1 <= i < l.len() ==> is_ascii_alphanumeric(#[trigger] l[i]) || l[i] == '_') ==> spec_scan_token(l)
            == Some(STokenType::ExposedFunction(l)),
{
    if forall|i: int| 0 <= i < l.len() ==> is_ascii_digit(#[trigger] l[i]) {
        assert(is_ascii_digit(l[0]));
        assert(!is_ascii_whitespace(l[0]));
        assert(l[0] != '"');
    }
    if (is_ascii_alphabetic(l[0]) || l[0] == '_') {
        assert(!is_ascii_whitespace(l[0]));
        assert(!is_ascii_digit(l[0]));
        assert(l[0] != '"');
    }
    if l.len() > 1 && l[0] == '@' {
        assert(!is_ascii_whitespace(l[0]));
        assert(!is_ascii_digit(l[0]));
        assert(!is_ascii_alphabetic(l[0]));
        assert(l[0] != '"');
    }
}

/// Whether a token type always has the same text: a keyword, a punctuation
/// mark, or the blank.
pub open spec fn has_fixed_text(tt: TokenType) -> bool {
    !(tt is Identifier || tt is ExposedFunction || tt is String || tt is Number || tt is Comment)
}

/// A token type with a fixed text is what the scanner reads from that text.
#[verifier::rlimit(60)]
pub proof fn law_fixed_text_reads_back(tt: TokenType)
    requires
        has_fixed_text(tt),
    ensures
        spec_scan_token(tt.spec_describe()) == Some(tt@),
{
    reveal_strlit("(");
    assert("("@.len() == 1 && "("@[0] == '(');
    reveal_strlit(")");
    assert(")"@.len() == 1 && ")"@[0] == ')');
    reveal_strlit("[");
    assert("["@.len() == 1 && "["@[0] == '[');
    reveal_strlit("]");
    assert("]"@.len() == 1 && "]"@[0] == ']');
    reveal_strlit(",");
    assert(","@.len() == 1 && ","@[0] == ',');
    reveal_strlit(".");
    assert("."@.len() == 1 && "."@[0] == '.');
    reveal_strlit(";");
    assert(";"@.len() == 1 && ";"@[0] == ';');
    reveal_strlit("-");
    assert("-"@.len() == 1 && "-"@[0] == '-');
    reveal_strlit("+");
    assert("+"@.len() == 1 && "+"@[0] == '+');
    reveal_strlit("/");
    assert("/"@.len() == 1 && "/"@[0] == '/');
    reveal_strlit("*");
    assert("*"@.len() == 1 && "*"@[0] == '*');
    reveal_strlit("=");
    assert("="@.len() == 1 && "="@[0] == '=');
    reveal_strlit(":=");
    assert(":="@.len() == 2 && ":="@[0] == ':' && ":="@[1] == '=');
    reveal_strlit("!=");
    assert("!="@.len() == 2 && "!="@[0] == '!' && "!="@[1] == '=');
    reveal_strlit("==");
    assert("=="@.len() == 2 && "=="@[0] == '=' && "=="@[1] == '=');
    reveal_strlit(">");
    assert(">"@.len() == 1 && ">"@[0] == '>');
    reveal_strlit(">=");
    assert(">="@.len() == 2 && ">="@[0] == '>' && ">="@[1] == '=');
    reveal_strlit("<");
    assert("<"@.len() == 1 && "<"@[0] == '<');
    reveal_strlit("<=");
    assert("<="@.len() == 2 && "<="@[0] == '<' && "<="@[1] == '=');
    reveal_strlit("//");
    assert("//"@.len() == 2 && "//"@[0] == '/' && "//"@[1] == '/');
    reveal_strlit("..");
    assert(".."@.len() == 2 && ".."@[0] == '.' && ".."@[1] == '.');
    reveal_strlit("not");
    assert("not"@.len() == 3 && "not"@[0] == 'n' && "not"@[1] == 'o' && "not"@[2] == 't');
    reveal_strlit("and");
    assert("and"@.len() == 3 && "and"@[0] == 'a' && "and"@[1] == 'n' && "and"@[2] == 'd');
    reveal_strlit("or");
    assert("or"@.len() == 2 && "or"@[0] == 'o' && "or"@[1] == 'r');
    reveal_strlit("fun");
    assert("fun"@.len() == 3 && "fun"@[0] == 'f' && "fun"@[1] == 'u' && "fun"@[2] == 'n');
    reveal_strlit("fn");
    assert("fn"@.len() == 2 && "fn"@[0] == 'f' && "fn"@[1] == 'n');
    reveal_strlit("return");
    assert("return"@.len() == 6 && "return"@[0] == 'r' && "return"@[1] == 'e' && "return"@[2] == 't' && "return"@[3] == 'u' && "return"@[4] == 'r' && "return"@[5] == 'n');
    reveal_strlit("for");
    assert("for"@.len() == 3 && "for"@[0] == 'f' && "for"@[1] == 'o' && "for"@[2] == 'r');
    reveal_strlit("in");
    assert("in"@.len() == 2 && "in"@[0] == 'i' && "in"@[1] == 'n');
    reveal_strlit("while");
    assert("while"@.len() == 5 && "while"@[0] == 'w' && "while"@[1] == 'h' && "while"@[2] == 'i' && "while"@[3] == 'l' && "while"@[4] == 'e');
    reveal_strlit("do");
    assert("do"@.len() == 2 && "do"@[0] == 'd' && "do"@[1] == 'o');
    reveal_strlit("if");
    assert("if"@.len() == 2 && "if"@[0] == 'i' && "if"@[1] == 'f');
    reveal_strlit("then");
    assert("then"@.len() == 4 && "then"@[0] == 't' && "then"@[1] == 'h' && "then"@[2] == 'e' && "then"@[3] == 'n');
    reveal_strlit("else");
    assert("else"@.len() == 4 && "else"@[0] == 'e' && "else"@[1] == 'l' && "else"@[2] == 's' && "else"@[3] == 'e');
    reveal_strlit("begin");
    assert("begin"@.len() == 5 && "begin"@[0] == 'b' && "begin"@[1] == 'e' && "begin"@[2] == 'g' && "begin"@[3] == 'i' && "begin"@[4] == 'n');
    reveal_strlit("end");
    assert("end"@.len() == 3 && "end"@[0] == 'e' && "end"@[1] == 'n' && "end"@[2] == 'd');
    reveal_strlit("nil");
    assert("nil"@.len() == 3 && "nil"@[0] == 'n' && "nil"@[1] == 'i' && "nil"@[2] == 'l');
    reveal_strlit("print");
    assert("print"@.len() == 5 && "print"@[0] == 'p' && "print"@[1] == 'r' && "print"@[2] == 'i' && "print"@[3] == 'n' && "print"@[4] == 't');
    reveal_strlit("true");
    assert("true"@.len() == 4 && "true"@[0] == 't' && "true"@[1] == 'r' && "true"@[2] == 'u' && "true"@[3] == 'e');
    reveal_strlit("false");
    assert("false"@.len() == 5 && "false"@[0] == 'f' && "false"@[1] == 'a' && "false"@[2] == 'l' && "false"@[3] == 's' && "false"@[4] == 'e');
    reveal_strlit("let");
    assert("let"@.len() == 3 && "let"@[0] == 'l' && "let"@[1] == 'e' && "let"@[2] == 't');
    reveal_strlit("break");
    assert("break"@.len() == 5 && "break"@[0] == 'b' && "break"@[1] == 'r' && "break"@[2] == 'e' && "break"@[3] == 'a' && "break"@[4] == 'k');
    reveal_strlit("continue");
    assert("continue"@.len() == 8 && "continue"@[0] == 'c' && "continue"@[1] == 'o' && "continue"@[2] == 'n' && "continue"@[3] == 't' && "continue"@[4] == 'i' && "continue"@[5] == 'n' && "continue"@[6] == 'u' && "continue"@[7] == 'e');
    reveal_strlit(" ");
    assert(" "@.len() == 1 && " "@[0] == ' ');
}

} // verus!

verus! {

// ---------------------------------------------------------------------------
// Where the scanner reports things
// ---------------------------------------------------------------------------

/// Whether `after` is `before` with tokens and errors added at its end, each
/// placed on line `v` at a column less than `n`.
pub open spec fn adds_within(before: ScanState, after: ScanState, v: usize, n: nat) -> bool {
    &&& before.tokens.len() <= after.tokens.len()
    &&& after.tokens.subrange(0, before.tokens.len() as int) == before.tokens
    &&& before.errors.len() <= after.errors.len()
    &&& after.errors.subrange(0, before.errors.len() as int) == before.errors
    &&& forall|i: int|
        before.tokens.len() <= i < after.tokens.len() ==> (#[trigger] after.tokens[i]).1.0 == v
            && after.tokens[i].1.1 < n
    &&& forall|i: int|
        before.errors.len() <= i < after.errors.len() ==> placed_on((#[trigger] after.errors[i]).0, v, n)
}

/// Whether `p` is a column less than `n` of line `v`.
pub open spec fn placed_on(p: Pos, v: usize, n: nat) -> bool {
    p matches Pos::Known(l, col) && l == v && col < n
}

proof fn lemma_adds_within_refl(st: ScanState, v: usize, n: nat)
    ensures
        adds_within(st, st, v, n),
{
    assert(st.tokens.subrange(0, st.tokens.len() as int) =~= st.tokens);
    assert(st.errors.subrange(0, st.errors.len() as int) =~= st.errors);
}

proof fn lemma_adds_within_trans(a: ScanState, b: ScanState, c: ScanState, v: usize, n: nat)
    requires
        adds_within(a, b, v, n),
        adds_within(b, c, v, n),
    ensures
        adds_within(a, c, v, n),
{
    assert(c.tokens.subrange(0, a.tokens.len() as int) =~= b.tokens.subrange(0, a.tokens.len() as int));
    assert(c.errors.subrange(0, a.errors.len() as int) =~= b.errors.subrange(0, a.errors.len() as int));
    assert forall|i: int| a.tokens.len() <= i < c.tokens.len() implies (#[trigger] c.tokens[i]).1.0 == v
        && c.tokens[i].1.1 < n by {
        if i < b.tokens.len() {
            assert(c.tokens[i] == c.tokens.subrange(0, b.tokens.len() as int)[i]);
        }
    }
    assert forall|i: int| a.errors.len() <= i < c.errors.len() implies placed_on((#[trigger] c.errors[i]).0, v, n) by {
        if i < b.errors.len() {
            assert(c.errors[i] == c.errors.subrange(0, b.errors.len() as int)[i]);
        }
    }
}

proof fn lemma_add_token_within(st: ScanState, v: usize, k: usize, literal: Seq<char>, n: nat)
    requires
        k < n,
    ensures
        adds_within(st, spec_add_token(st, (v, k), literal), v, n),
{
    let r = spec_add_token(st, (v, k), literal);
    assert(r.tokens.subrange(0, st.tokens.len() as int) =~= st.tokens);
    assert(r.errors.subrange(0, st.errors.len() as int) =~= st.errors);
}

proof fn lemma_add_error_within(st: ScanState, v: usize, k: usize, e: SScannerError, n: nat)
    requires
        k < n,
    ensures
        adds_within(st, spec_add_error(st, (v, k), e), v, n),
{
    let r = spec_add_error(st, (v, k), e);
    assert(r.tokens.subrange(0, st.tokens.len() as int) =~= st.tokens);
    assert(r.errors.subrange(0, st.errors.len() as int) =~= st.errors);
}

proof fn lemma_push_token_within(st: ScanState, tt: STokenType, v: usize, k: usize, n: nat)
    requires
        k < n,
    ensures
        adds_within(st, spec_push_token(st, tt, (v, k)), v, n),
{
    let r = spec_push_token(st, tt, (v, k));
    assert(r.tokens.subrange(0, st.tokens.len() as int) =~= st.tokens);
    assert(r.errors.subrange(0, st.errors.len() as int) =~= st.errors);
}

proof fn lemma_ident_within(c: Seq<char>, v: usize, i: nat, k: nat, st: ScanState)
    requires
        c.len() <= usize::MAX,
        i < c.len(),
    ensures
        adds_within(st, spec_ident_from(c, v, i, k, st).0, v, c.len()),
    decreases c.len() - k,
{
    if k >= c.len() {
        lemma_add_token_within(st, v, (c.len() - 1) as usize, c.subrange(i as int, c.len() as int), c.len());
    } else {
        let ch = c[k as int];
        if ch == '_' || is_ascii_alphabetic(ch) || (is_ascii_digit(ch) && k - i > 1) {
            if grows(c, i, k + 1) {
                lemma_ident_within(c, v, i, k + 1, st);
            } else {
                lemma_add_token_within(st, v, k as usize, c.subrange(i as int, k + 1 as int), c.len());
            }
        } else {
            lemma_add_token_within(st, v, k as usize, c.subrange(i as int, k as int), c.len());
        }
    }
}

proof fn lemma_number_within(
    c: Seq<char>,
    v: usize,
    k: nat,
    seen_dot: bool,
    seen_underscore: bool,
    literal: Seq<char>,
    st: ScanState,
)
    requires
        c.len() <= usize::MAX,
        c.len() > 0,
    ensures
        adds_within(st, spec_number_from(c, v, k, seen_dot, seen_underscore, literal, st).0, v, c.len()),
    decreases c.len() - k,
{
    let n = c.len();
    if k >= n {
        lemma_add_token_within(st, v, (n - 1) as usize, literal, n);
    } else {
        let ch = c[k as int];
        if ch == '.' {
            let st1 = if seen_underscore {
                spec_add_error(st, (v, if k > 0 { (k - 1) as usize } else { 0 }), SScannerError::UnexpectedNumberSeparator)
            } else {
                st
            };
            if seen_underscore {
                lemma_add_error_within(st, v, if k > 0 { (k - 1) as usize } else { 0 }, SScannerError::UnexpectedNumberSeparator, n);
            } else {
                lemma_adds_within_refl(st, v, n);
            }
            if seen_dot {
                let st2 = spec_add_error(st1, (v, k as usize), SScannerError::InvalidToken(seq!['.']));
                lemma_add_error_within(st1, v, k as usize, SScannerError::InvalidToken(seq!['.']), n);
                lemma_adds_within_trans(st, st1, st2, v, n);
                lemma_number_within(c, v, k + 1, seen_dot, seen_underscore, literal, st2);
                lemma_adds_within_trans(
                    st,
                    st2,
                    spec_number_from(c, v, k + 1, seen_dot, seen_underscore, literal, st2).0,
                    v,
                    n,
                );
            } else {
                lemma_number_within(c, v, k + 1, true, seen_underscore, literal.push('.'), st1);
                lemma_adds_within_trans(
                    st,
                    st1,
                    spec_number_from(c, v, k + 1, true, seen_underscore, literal.push('.'), st1).0,
                    v,
                    n,
                );
            }
        } else if ch == '_' {
            let st1 = if literal.len() > 0 && literal.last() == '.' {
                spec_add_error(st, (v, k as usize), SScannerError::InvalidToken(seq!['_']))
            } else {
                st
            };
            if literal.len() > 0 && literal.last() == '.' {
                lemma_add_error_within(st, v, k as usize, SScannerError::InvalidToken(seq!['_']), n);
            } else {
                lemma_adds_within_refl(st, v, n);
            }
            lemma_number_within(c, v, k + 1, seen_dot, true, literal, st1);
            lemma_adds_within_trans(st, st1, spec_number_from(c, v, k + 1, seen_dot, true, literal, st1).0, v, n);
        } else if is_ascii_digit(ch) {
            lemma_number_within(c, v, k + 1, seen_dot, false, literal.push(ch), st);
        } else {
            let st1 = if !is_whitespace(ch) && ch != ';' {
                spec_add_error(st, (v, k as usize), SScannerError::MissingSeparation)
            } else {
                st
            };
            if !is_whitespace(ch) && ch != ';' {
                lemma_add_error_within(st, v, k as usize, SScannerError::MissingSeparation, n);
            } else {
                lemma_adds_within_refl(st, v, n);
            }
            lemma_add_token_within(st1, v, k as usize, literal, n);
            lemma_adds_within_trans(st, st1, spec_add_token(st1, (v, k as usize), literal), v, n);
        }
    }
}

proof fn lemma_string_within(c: Seq<char>, v: usize, k: nat, literal: Seq<char>, st: ScanState)
    requires
        c.len() <= usize::MAX,
    ensures
        adds_within(st, spec_string_from(c, v, k, literal, st).0, v, c.len()),
    decreases c.len() - k,
{
    let n = c.len();
    if k >= n {
        lemma_adds_within_refl(st, v, n);
    } else if c[k as int] == '"' {
        lemma_add_token_within(st, v, k as usize, literal.push('"'), n);
    } else {
        let st1 = if k + 1 >= n {
            spec_add_error(st, (v, k as usize), SScannerError::UnclosedString)
        } else {
            st
        };
        if k + 1 >= n {
            lemma_add_error_within(st, v, k as usize, SScannerError::UnclosedString, n);
        } else {
            lemma_adds_within_refl(st, v, n);
        }
        lemma_string_within(c, v, k + 1, literal.push(c[k as int]), st1);
        lemma_adds_within_trans(st, st1, spec_string_from(c, v, k + 1, literal.push(c[k as int]), st1).0, v, n);
    }
}

proof fn lemma_others_within(c: Seq<char>, v: usize, k: nat, literal: Seq<char>, st: ScanState)
    requires
        c.len() <= usize::MAX,
    ensures
        adds_within(st, spec_others_from(c, v, k, literal, st).0, v, c.len()),
    decreases c.len() - k,
{
    let n = c.len();
    if k >= n {
        lemma_adds_within_refl(st, v, n);
    } else {
        let lit = literal.push(c[k as int]);
        if k + 1 < n && spec_scan_token(lit.push(c[k + 1 as int])) is Some {
            lemma_others_within(c, v, k + 1, lit, st);
        } else {
            lemma_add_token_within(st, v, k as usize, lit, n);
        }
    }
}

proof fn lemma_scan_from_within(c: Seq<char>, v: usize, i: nat, st: ScanState)
    requires
        c.len() <= usize::MAX,
    ensures
        adds_within(st, spec_scan_from(c, v, i, st), v, c.len()),
    decreases c.len() - i,
{
    let n = c.len();
    if i >= n {
        lemma_adds_within_refl(st, v, n);
    } else {
        let ch = c[i as int];
        if is_whitespace(ch) {
            lemma_scan_from_within(c, v, i + 1, st);
        } else {
            let (st2, j) = if is_ascii_alphabetic(ch) || ch == '_' || ch == '@' {
                lemma_ident_within(c, v, i, i + 1, st);
                spec_ident_from(c, v, i, i + 1, st)
            } else if is_ascii_digit(ch) {
                lemma_number_within(c, v, i, false, false, Seq::empty(), st);
                spec_number_from(c, v, i, false, false, Seq::empty(), st)
            } else if ch == '"' {
                lemma_string_within(c, v, i + 1, seq!['"'], st);
                spec_string_from(c, v, i + 1, seq!['"'], st)
            } else if ch == '/' {
                let r = spec_comment(c, v, i, st);
                if i + 1 < n && c[i + 1 as int] == '/' {
                    let end_h = if n > i + 2 { (n - 1) as usize } else { i as usize };
                    let st1 = spec_push_token(st, STokenType::CommentStarter, (v, i as usize));
                    lemma_push_token_within(st, STokenType::CommentStarter, v, i as usize, n);
                    lemma_push_token_within(st1, STokenType::Comment(c.subrange(i + 2 as int, n as int)), v, end_h, n);
                    lemma_adds_within_trans(st, st1, r.0, v, n);
                } else {
                    lemma_push_token_within(st, STokenType::Slash, v, i as usize, n);
                }
                r
            } else {
                lemma_others_within(c, v, i, Seq::empty(), st);
                spec_others_from(c, v, i, Seq::empty(), st)
            };
            lemma_scan_from_within(c, v, past(i, j, n), st2);
            lemma_adds_within_trans(st, st2, spec_scan_from(c, v, past(i, j, n), st2), v, n);
        }
    }
}

/// Every token and every error that the scanner reports for a line is placed
/// on that line, at one of its columns.
pub proof fn law_line_positions_lie_on_the_line(c: Seq<char>, v: usize)
    requires
        c.len() <= usize::MAX,
    ensures
        forall|i: int|
            0 <= i < spec_scan_line(c, v).tokens.len() ==> (#[trigger] spec_scan_line(c, v).tokens[i]).1.0 == v
                && spec_scan_line(c, v).tokens[i].1.1 < c.len(),
        forall|i: int|
            0 <= i < spec_scan_line(c, v).errors.len() ==> placed_on(
                (#[trigger] spec_scan_line(c, v).errors[i]).0,
                v,
                c.len(),
            ),
{
    lemma_scan_from_within(c, v, 0, empty_scan());
}

/// Whether `(l, col)` is a column of one of the lines.
pub open spec fn in_text(p: (usize, usize), lines: Seq<Seq<char>>) -> bool {
    p.0 < lines.len() && p.1 < lines[p.0 as int].len()
}

/// Whether `p` is a column of one of the lines.
pub open spec fn error_in_text(p: Pos, lines: Seq<Seq<char>>) -> bool {
    p matches Pos::Known(l, col) && in_text((l, col), lines)
}

/// Every token and every error that the scanner reports for lines of text is
/// placed on one of the lines, at one of its columns.
pub proof fn law_positions_lie_in_the_text(lines: Seq<Seq<char>>)
    requires
        lines.len() <= usize::MAX,
        forall|k: int| 0 <= k < lines.len() ==> (#[trigger] lines[k]).len() <= usize::MAX,
    ensures
        forall|i: int|
            0 <= i < spec_scan_lines(lines).tokens.len() ==> in_text(
                (#[trigger] spec_scan_lines(lines).tokens[i]).1,
                lines,
            ),
        forall|i: int|
            0 <= i < spec_scan_lines(lines).errors.len() ==> error_in_text(
                (#[trigger] spec_scan_lines(lines).errors[i]).0,
                lines,
            ),
    decreases lines.len(),
{
    if lines.len() > 0 {
        let init = lines.drop_last();
        let v = (lines.len() - 1) as usize;
        law_positions_lie_in_the_text(init);
        law_line_positions_lie_on_the_line(lines.last(), v);
        let before = spec_scan_lines(init);
        let last = spec_scan_line(lines.last(), v);
        let all = spec_scan_lines(lines);
        assert(all.tokens == before.tokens + last.tokens);
        assert(all.errors == before.errors + last.errors);
        assert forall|i: int| 0 <= i < all.tokens.len() implies in_text((#[trigger] all.tokens[i]).1, lines) by {
            if i < before.tokens.len() {
                assert(all.tokens[i] == before.tokens[i]);
                assert(in_text(before.tokens[i].1, init));
                assert(init[before.tokens[i].1.0 as int] == lines[before.tokens[i].1.0 as int]);
            } else {
                assert(all.tokens[i] == last.tokens[i - before.tokens.len()]);
            }
        }
        assert forall|i: int| 0 <= i < all.errors.len() implies error_in_text((#[trigger] all.errors[i]).0, lines) by {
            if i < before.errors.len() {
                assert(all.errors[i] == before.errors[i]);
                assert(error_in_text(before.errors[i].0, init));
                if let Pos::Known(l, col) = before.errors[i].0 {
                    assert(init[l as int] == lines[l as int]);
                }
            } else {
                assert(all.errors[i] == last.errors[i - before.errors.len()]);
                assert(placed_on(last.errors[i - before.errors.len()].0, v, lines.last().len()));
            }
        }
    }
}

} // verus!
