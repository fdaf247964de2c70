use vstd::prelude::*;

use crate::errors::{Error, ParserError, Pos};
use crate::expr::{Expr, SExpr};
use crate::stmt::{SStmt, Stmt};
use crate::tokens::{Token, TokenType};

verus! {

// ---------------------------------------------------------------------------
// The grammar, as spec functions over the token sequence.
//
// Each rule reads tokens from position `pos` and gives either a value and the
// position of the next unread token, or an error and the position reached when
// the error was found (a mismatched token that was read counts as consumed).
// ---------------------------------------------------------------------------

/// A value or an error, with the position of the next unread token.
pub type Parsed<T> = Result<(T, nat), (Error<ParserError>, nat)>;

/// What an executable parsing step gives: a value or an error, with the
/// position of the next unread token.
pub type Step<T> = Result<(T, usize), (Error<ParserError>, usize)>;

/// The number of tokens left from `pos`.
pub open spec fn rem(t: Seq<Token>, pos: nat) -> nat {
    if pos < t.len() {
        (t.len() - pos) as nat
    } else {
        0
    }
}

/// The position `q` reached by a rule that started at `from` (a rule never
/// moves back, so this is `q` itself).
pub open spec fn fwd(from: nat, q: nat) -> nat {
    if q >= from {
        q
    } else {
        from
    }
}

/// The position a step stopped at.
pub open spec fn stop<T>(r: Step<T>) -> usize {
    match r {
        Ok((_, p)) => p,
        Err((_, p)) => p,
    }
}

/// The step stopped at a position between `pos` and the end of the tokens.
pub open spec fn landed<T>(r: Step<T>, pos: usize, len: nat) -> bool {
    pos <= stop(r) <= len
}

/// An executable step over an expression, as a parse result.
pub open spec fn seen_expr(r: Step<Expr>) -> Parsed<SExpr> {
    match r {
        Ok((v, p)) => Ok((v@, p as nat)),
        Err((e, p)) => Err((e, p as nat)),
    }
}

/// An executable step over a statement, as a parse result.
pub open spec fn seen_stmt(r: Step<Stmt>) -> Parsed<SStmt> {
    match r {
        Ok((v, p)) => Ok((v@, p as nat)),
        Err((e, p)) => Err((e, p as nat)),
    }
}

/// An executable step over a list of statements, as a parse result.
pub open spec fn seen_stmts(r: Step<Vec<Stmt>>) -> Parsed<Seq<SStmt>> {
    match r {
        Ok((v, p)) => Ok((crate::stmt::stmts_view(v@), p as nat)),
        Err((e, p)) => Err((e, p as nat)),
    }
}

/// An executable step over a token, as a parse result.
pub open spec fn seen_token(r: Step<Token>) -> Parsed<Token> {
    match r {
        Ok((v, p)) => Ok((v, p as nat)),
        Err((e, p)) => Err((e, p as nat)),
    }
}

/// An executable step over a list of tokens, as a parse result.
pub open spec fn seen_tokens(r: Step<Vec<Token>>) -> Parsed<Seq<Token>> {
    match r {
        Ok((v, p)) => Ok((v@, p as nat)),
        Err((e, p)) => Err((e, p as nat)),
    }
}

/// An executable step over a list of expressions, as a parse result.
pub open spec fn seen_exprs(r: Step<Vec<Expr>>) -> Parsed<Seq<SExpr>> {
    match r {
        Ok((v, p)) => Ok((crate::expr::exprs_view(v@), p as nat)),
        Err((e, p)) => Err((e, p as nat)),
    }
}

/// An executable step over the closing of a call, as a parse result.
pub open spec fn seen_call(r: Step<(Token, Vec<Expr>)>) -> Parsed<(Token, Seq<SExpr>)> {
    match r {
        Ok((v, p)) => Ok(((v.0, crate::expr::exprs_view(v.1@)), p as nat)),
        Err((e, p)) => Err((e, p as nat)),
    }
}

/// A `for` range: start, condition, end and the optional step.
pub type SRange = (SExpr, Token, SExpr, Option<SExpr>);

/// An executable step over a `for` range, as a parse result.
pub open spec fn seen_range(r: Step<(Expr, Token, Expr, Option<Expr>)>) -> Parsed<SRange> {
    match r {
        Ok((v, p)) => Ok((
            (
                v.0@,
                v.1,
                v.2@,
                match v.3 {
                    Some(s) => Some(s@),
                    None => None,
                },
            ),
            p as nat,
        )),
        Err((e, p)) => Err((e, p as nat)),
    }
}

/// The error `e`, reported at the token at `pos` or at the end of input.
pub open spec fn err_at(t: Seq<Token>, pos: nat, e: ParserError) -> Error<ParserError> {
    if pos < t.len() {
        Error { pos: Pos::Known(t[pos as int].line.0, t[pos as int].line.1), err_type: e }
    } else {
        Error { pos: Pos::EOF, err_type: e }
    }
}

/// Reads the next token, which must be of the variant of `k`.
pub open spec fn spec_consume(t: Seq<Token>, pos: nat, k: TokenType, e: ParserError) -> Parsed<Token> {
    if pos < t.len() {
        if t[pos as int].token_type.spec_same_kind(k) {
            Ok((t[pos as int], pos + 1))
        } else {
            Err((err_at(t, pos, e), pos + 1))
        }
    } else {
        Err((err_at(t, pos, e), pos))
    }
}

/// Reads the next token if it is an identifier.
pub open spec fn spec_consume_identifier(t: Seq<Token>, pos: nat) -> Parsed<Token> {
    if pos < t.len() && t[pos as int].token_type is Identifier {
        Ok((t[pos as int], pos + 1))
    } else {
        Err((err_at(t, pos, ParserError::ExpectedIdentifier), pos))
    }
}

/// Reads the next token, which must be `<` or `>`.
pub open spec fn spec_consume_condition(t: Seq<Token>, pos: nat) -> Parsed<Token> {
    if pos < t.len() {
        if t[pos as int].token_type is Lesser || t[pos as int].token_type is Greater {
            Ok((t[pos as int], pos + 1))
        } else {
            Err((err_at(t, pos, ParserError::MissingRangeCondition), pos + 1))
        }
    } else {
        Err((err_at(t, pos, ParserError::MissingRangeCondition), pos))
    }
}

/// The operators of each level of binary expressions, from `or` (6) down to
/// `*` and `/` (1).
pub open spec fn is_level_op(lvl: nat, tt: TokenType) -> bool {
    if lvl == 6 {
        tt is Or
    } else if lvl == 5 {
        tt is And
    } else if lvl == 4 {
        tt is BangEqual || tt is EqualEqual
    } else if lvl == 3 {
        tt is Lesser || tt is LesserEqual || tt is Greater || tt is GreaterEqual
    } else if lvl == 2 {
        tt is Minus || tt is Plus
    } else {
        tt is Slash || tt is Star
    }
}

/// Whether the token type is a literal value.
pub open spec fn is_literal(tt: TokenType) -> bool {
    tt is False || tt is True || tt is Nil || tt is String || tt is Number
}

/// The keywords at which recovery from an error stops, leaving them unread.
pub open spec fn is_sync_stop(tt: TokenType) -> bool {
    tt is Fun || tt is Return || tt is Let || tt is For || tt is While || tt is If
}

// ----- Expressions ---------------------------------------------------------

/// `EXPRESSION ::= ASSIGNMENT ::= LAMBDA ( "=" ASSIGNMENT )?`, where only a
/// variable may stand before `=`.
pub open spec fn spec_assignment(t: Seq<Token>, pos: nat) -> Parsed<SExpr>
    decreases rem(t, pos), 13nat,
{
    match spec_lambda(t, pos) {
        Err(e) => Err(e),
        Ok((target, q)) => {
            if pos <= q < t.len() && t[q as int].token_type is Equal {
                match spec_assignment(t, q + 1) {
                    Err(e) => Err(e),
                    Ok((value, q2)) => {
                        if target is Variable {
                            Ok((SExpr::Assignment { target: Box::new(target), expr: Box::new(value) }, q2))
                        } else {
                            Err((err_at(t, q, ParserError::InvalidAssignment), q2))
                        }
                    },
                }
            } else {
                Ok((target, q))
            }
        },
    }
}

/// `LAMBDA ::= "fn" "(" PARAMETERS? ")" LAMBDA | OR`
pub open spec fn spec_lambda(t: Seq<Token>, pos: nat) -> Parsed<SExpr>
    decreases rem(t, pos), 11nat,
{
    if pos < t.len() && t[pos as int].token_type is Fn {
        match spec_params(t, pos + 1, t[pos as int].token_type) {
            Err(e) => Err(e),
            Ok((params, q)) => match spec_lambda(t, fwd(pos + 1, q)) {
                Err(e) => Err(e),
                Ok((body, q2)) => Ok((SExpr::Lambda { params, body: Box::new(body) }, q2)),
            },
        }
    } else {
        spec_level(t, pos, 6)
    }
}

/// One level of left-associative binary operators over the next level down
/// (`OR`, `AND`, `EQUALITY`, `COMPARISON`, `TERM`, `FACTOR` for 6 down to 1).
pub open spec fn spec_level(t: Seq<Token>, pos: nat, lvl: nat) -> Parsed<SExpr>
    decreases rem(t, pos), lvl + 4,
{
    let first = if lvl <= 1 {
        spec_unary(t, pos)
    } else {
        spec_level(t, pos, (lvl - 1) as nat)
    };
    match first {
        Err(e) => Err(e),
        Ok((left, q)) => spec_level_rest(t, fwd(pos, q), lvl, left),
    }
}

/// The operators and operands that follow the first operand of a level.
pub open spec fn spec_level_rest(t: Seq<Token>, pos: nat, lvl: nat, left: SExpr) -> Parsed<SExpr>
    decreases rem(t, pos), 0nat,
{
    if pos < t.len() && is_level_op(lvl, t[pos as int].token_type) {
        let next = if lvl <= 1 {
            spec_unary(t, pos + 1)
        } else {
            spec_level(t, pos + 1, (lvl - 1) as nat)
        };
        match next {
            Err(e) => Err(e),
            Ok((right, q)) => spec_level_rest(
                t,
                fwd(pos + 1, q),
                lvl,
                SExpr::Binary { left: Box::new(left), operator: t[pos as int], right: Box::new(right) },
            ),
        }
    } else {
        Ok((left, pos))
    }
}

/// `UNARY ::= ( "not" | "-" ) UNARY | CALL`
pub open spec fn spec_unary(t: Seq<Token>, pos: nat) -> Parsed<SExpr>
    decreases rem(t, pos), 3nat,
{
    if pos < t.len() && (t[pos as int].token_type is Not || t[pos as int].token_type is Minus) {
        match spec_unary(t, pos + 1) {
            Err(e) => Err(e),
            Ok((right, q)) => Ok((SExpr::Unary { operator: t[pos as int], right: Box::new(right) }, q)),
        }
    } else {
        spec_call(t, pos)
    }
}

/// `CALL ::= PRIMARY ( "(" ARGUMENTS? ")" )*`
pub open spec fn spec_call(t: Seq<Token>, pos: nat) -> Parsed<SExpr>
    decreases rem(t, pos), 2nat,
{
    match spec_primary(t, pos) {
        Err(e) => Err(e),
        Ok((callee, q)) => spec_call_rest(t, fwd(pos, q), callee),
    }
}

/// The argument lists that follow a callee.
pub open spec fn spec_call_rest(t: Seq<Token>, pos: nat, callee: SExpr) -> Parsed<SExpr>
    decreases rem(t, pos), 0nat,
{
    if pos < t.len() && t[pos as int].token_type is LeftParenthesis {
        match spec_finish_call(t, pos + 1) {
            Err(e) => Err(e),
            Ok(((paren, args), q)) => spec_call_rest(
                t,
                fwd(pos + 1, q),
                SExpr::Call { callee: Box::new(callee), paren, args },
            ),
        }
    } else {
        Ok((callee, pos))
    }
}

/// The arguments of a call and its closing `)`.
pub open spec fn spec_finish_call(t: Seq<Token>, pos: nat) -> Parsed<(Token, Seq<SExpr>)>
    decreases rem(t, pos), 12nat,
{
    let args = if pos < t.len() && !(t[pos as int].token_type is RightParenthesis) {
        spec_arguments(t, pos, Seq::empty())
    } else {
        Ok((Seq::empty(), pos))
    };
    match args {
        Err(e) => Err(e),
        Ok((args, q)) => match spec_consume(t, q, TokenType::RightParenthesis, ParserError::UnclosedCallExpr) {
            Err(e) => Err(e),
            Ok((paren, q2)) => Ok(((paren, args), q2)),
        },
    }
}

/// `ARGUMENTS ::= OR ( "," OR )*`, at most 255 of them.
pub open spec fn spec_arguments(t: Seq<Token>, pos: nat, args: Seq<SExpr>) -> Parsed<Seq<SExpr>>
    decreases rem(t, pos), 11nat,
{
    match spec_level(t, pos, 6) {
        Err(e) => Err(e),
        Ok((arg, q)) => {
            let args = args.push(arg);
            if pos <= q < t.len() && t[q as int].token_type is Comma {
                if args.len() >= 255 {
                    Err((err_at(t, q + 1, ParserError::ExcessiveArguments), q + 1))
                } else {
                    spec_arguments(t, q + 1, args)
                }
            } else {
                Ok((args, q))
            }
        },
    }
}

/// `PRIMARY ::= "(" EXPRESSION ")" | "if" CONDITIONAL | ATOM`
pub open spec fn spec_primary(t: Seq<Token>, pos: nat) -> Parsed<SExpr>
    decreases rem(t, pos), 1nat,
{
    if pos < t.len() && t[pos as int].token_type is LeftParenthesis {
        spec_grouping(t, pos + 1)
    } else if pos < t.len() && t[pos as int].token_type is If {
        spec_conditional_expr(t, pos + 1)
    } else {
        spec_atom(t, pos)
    }
}

/// `ATOM ::= LITERAL | EXPOSED_FN | IDENTIFIER`; any other token is invalid here.
pub open spec fn spec_atom(t: Seq<Token>, pos: nat) -> Parsed<SExpr> {
    if pos >= t.len() {
        Err((err_at(t, pos, ParserError::UnexpectedEOF), pos))
    } else {
        let tok = t[pos as int];
        if is_literal(tok.token_type) {
            Ok((SExpr::Literal(tok.token_type@, tok.line), pos + 1))
        } else if tok.token_type is ExposedFunction {
            Ok((SExpr::ExposedFn(tok), pos + 1))
        } else if tok.token_type is Identifier {
            Ok((SExpr::Variable(tok), pos + 1))
        } else {
            Err((err_at(t, pos, ParserError::InvalidToken(tok.token_type)), pos))
        }
    }
}

/// `EXPRESSION ")"` of a grouping (after `(`).
pub open spec fn spec_grouping(t: Seq<Token>, pos: nat) -> Parsed<SExpr>
    decreases rem(t, pos), 14nat,
{
    match spec_assignment(t, pos) {
        Err(e) => Err(e),
        Ok((inner, q)) => match spec_consume(t, q, TokenType::RightParenthesis, ParserError::UnclosedExpr) {
            Err(e) => Err(e),
            Ok((_, q2)) => Ok((SExpr::Grouping(Box::new(inner)), q2)),
        },
    }
}

/// `CONDITIONAL ::= OR "then" OR "else" OR "end"` (after `if`)
pub open spec fn spec_conditional_expr(t: Seq<Token>, pos: nat) -> Parsed<SExpr>
    decreases rem(t, pos), 11nat,
{
    match spec_level(t, pos, 6) {
        Err(e) => Err(e),
        Ok((condition, q)) => spec_conditional_then(t, fwd(pos, q), condition),
    }
}

/// `"then" OR "else" OR "end"` of a conditional expression.
pub open spec fn spec_conditional_then(t: Seq<Token>, pos: nat, condition: SExpr) -> Parsed<SExpr>
    decreases rem(t, pos), 0nat,
{
    match spec_consume(t, pos, TokenType::Then, ParserError::MissingThenToken) {
        Err(e) => Err(e),
        Ok((_, q)) => match spec_level(t, q, 6) {
            Err(e) => Err(e),
            Ok((yes, q2)) => spec_conditional_else(t, fwd(q, q2), condition, yes),
        },
    }
}

/// `"else" OR "end"` of a conditional expression.
pub open spec fn spec_conditional_else(t: Seq<Token>, pos: nat, condition: SExpr, yes: SExpr) -> Parsed<SExpr>
    decreases rem(t, pos), 0nat,
{
    match spec_consume(t, pos, TokenType::Else, ParserError::MissingElseToken) {
        Err(e) => Err(e),
        Ok((_, q)) => match spec_level(t, q, 6) {
            Err(e) => Err(e),
            Ok((no, q2)) => match spec_consume(t, q2, TokenType::End, ParserError::UnterminatedIfElseExpr) {
                Err(e) => Err(e),
                Ok((_, q3)) => Ok((
                    SExpr::Conditional {
                        condition: Box::new(condition),
                        true_branch: Box::new(yes),
                        false_branch: Box::new(no),
                    },
                    q3,
                )),
            },
        },
    }
}

/// `"(" PARAMETERS? ")"` of a function or lambda named by `who`.
pub open spec fn spec_params(t: Seq<Token>, pos: nat, who: TokenType) -> Parsed<Seq<Token>> {
    match spec_consume(t, pos, TokenType::LeftParenthesis, ParserError::ExpectedLeftParenthesisFnDecl(who)) {
        Err(e) => Err(e),
        Ok((_, q)) => {
            let params = if q < t.len() && !(t[q as int].token_type is RightParenthesis) {
                spec_param_list(t, q, Seq::empty(), who)
            } else {
                Ok((Seq::empty(), q))
            };
            match params {
                Err(e) => Err(e),
                Ok((params, q2)) => match spec_consume(
                    t,
                    q2,
                    TokenType::RightParenthesis,
                    ParserError::MissingRightParenthesisFnDecl(who),
                ) {
                    Err(e) => Err(e),
                    Ok((_, q3)) => Ok((params, q3)),
                },
            }
        },
    }
}

/// `PARAMETERS ::= IDENTIFIER ( "," IDENTIFIER )*`, at most 255 of them.
pub open spec fn spec_param_list(t: Seq<Token>, pos: nat, params: Seq<Token>, who: TokenType) -> Parsed<Seq<Token>>
    decreases rem(t, pos),
{
    match spec_consume_identifier(t, pos) {
        Err(e) => Err(e),
        Ok((param, q)) => {
            let params = params.push(param);
            if q < t.len() && t[q as int].token_type is Comma {
                if params.len() >= 255 {
                    Err((err_at(t, q + 1, ParserError::ExcessiveArgumentsFunDecl(who)), q + 1))
                } else {
                    spec_param_list(t, q + 1, params, who)
                }
            } else {
                Ok((params, q))
            }
        },
    }
}

// ----- Statements ----------------------------------------------------------

/// `DECLARATION ::= FUNC_DECL | VAR_DECL | STATEMENT`
pub open spec fn spec_declaration(t: Seq<Token>, pos: nat) -> Parsed<SStmt>
    decreases rem(t, pos), 17nat,
{
    if pos >= t.len() {
        Err((err_at(t, pos, ParserError::UnexpectedEOF), pos))
    } else if t[pos as int].token_type is Fun {
        spec_fun_declaration(t, pos)
    } else if t[pos as int].token_type is Let {
        spec_var_declaration(t, pos)
    } else {
        spec_statement(t, pos)
    }
}

/// `FUNC_DECL ::= "fun" IDENTIFIER "(" PARAMETERS? ")" DECLARATION* "end"`
pub open spec fn spec_fun_declaration(t: Seq<Token>, pos: nat) -> Parsed<SStmt>
    decreases rem(t, pos), 0nat,
{
    if pos >= t.len() {
        Err((err_at(t, pos, ParserError::UnexpectedEOF), pos))
    } else {
        match spec_consume_identifier(t, pos + 1) {
            Err(e) => Err(e),
            Ok((identifier, q)) => match spec_params(t, q, identifier.token_type) {
                Err(e) => Err(e),
                Ok((params, q2)) => match spec_block(t, fwd(pos + 1, q2)) {
                    Err(e) => Err(e),
                    Ok((body, q3)) => Ok((SStmt::Function { identifier, params, body }, q3)),
                },
            },
        }
    }
}

/// `VAR_DECL ::= "let" IDENTIFIER ":=" EXPRESSION ";"`
pub open spec fn spec_var_declaration(t: Seq<Token>, pos: nat) -> Parsed<SStmt>
    decreases rem(t, pos), 0nat,
{
    if pos >= t.len() {
        Err((err_at(t, pos, ParserError::UnexpectedEOF), pos))
    } else {
        match spec_consume_identifier(t, pos + 1) {
            Err(e) => Err(e),
            Ok((target, q)) => match spec_consume(t, q, TokenType::ColonEqual, ParserError::UnterminatedStmt) {
                Err(e) => Err(e),
                Ok((_, q2)) => match spec_assignment(t, q2) {
                    Err(e) => Err(e),
                    Ok((expr, q3)) => match spec_consume(t, q3, TokenType::Semicolon, ParserError::UnterminatedStmt) {
                        Err(e) => Err(e),
                        Ok((_, q4)) => Ok((SStmt::Var { target, expr }, q4)),
                    },
                },
            },
        }
    }
}

/// `STATEMENT ::= PRINT | IF | WHILE | FOR | RETURN | BREAK | CONTINUE | BLOCK | EXPR_STATEMENT`, where
/// `BLOCK ::= "begin" DECLARATION* "end" ";"`
pub open spec fn spec_statement(t: Seq<Token>, pos: nat) -> Parsed<SStmt>
    decreases rem(t, pos), 16nat,
{
    if pos >= t.len() {
        Err((err_at(t, pos, ParserError::UnexpectedEOF), pos))
    } else {
        let tt = t[pos as int].token_type;
        if tt is Print {
            spec_print_stmt(t, pos)
        } else if tt is If {
            spec_conditional_stmt(t, pos)
        } else if tt is While {
            spec_while_stmt(t, pos)
        } else if tt is For {
            spec_for_stmt(t, pos)
        } else if tt is Return {
            spec_return_stmt(t, pos)
        } else if tt is Break {
            spec_break_stmt(t, pos)
        } else if tt is Continue {
            spec_continue_stmt(t, pos)
        } else if tt is Begin {
            match spec_block(t, pos + 1) {
                Err(e) => Err(e),
                Ok((stmts, q)) => match spec_consume(t, q, TokenType::Semicolon, ParserError::UnterminatedStmt) {
                    Err(e) => Err(e),
                    Ok((_, q2)) => Ok((SStmt::Block(stmts), q2)),
                },
            }
        } else {
            spec_expr_statement(t, pos)
        }
    }
}

/// `PRINT_STATEMENT ::= "print" "(" OR ")" ";"`
pub open spec fn spec_print_stmt(t: Seq<Token>, pos: nat) -> Parsed<SStmt>
    decreases rem(t, pos), 0nat,
{
    match spec_consume(t, pos + 1, TokenType::LeftParenthesis, ParserError::InvalidPrint) {
        Err(e) => Err(e),
        Ok((_, q)) => match spec_level(t, q, 6) {
            Err(e) => Err(e),
            Ok((expr, q2)) => match spec_consume(t, q2, TokenType::RightParenthesis, ParserError::UnclosedExpr) {
                Err(e) => Err(e),
                Ok((_, q3)) => match spec_consume(t, q3, TokenType::Semicolon, ParserError::UnterminatedStmt) {
                    Err(e) => Err(e),
                    Ok((_, q4)) => Ok((SStmt::Print(expr), q4)),
                },
            },
        },
    }
}

/// `IF ::= "if" EQUALITY "then" DECLARATION* ( "end" | "else" DECLARATION* "end" )`
pub open spec fn spec_conditional_stmt(t: Seq<Token>, pos: nat) -> Parsed<SStmt>
    decreases rem(t, pos), 0nat,
{
    if pos >= t.len() {
        Err((err_at(t, pos, ParserError::UnexpectedEOF), pos))
    } else {
        match spec_level(t, pos + 1, 4) {
            Err(e) => Err(e),
            Ok((condition, q)) => match spec_consume(t, q, TokenType::Then, ParserError::MissingThenToken) {
                Err(e) => Err(e),
                Ok((_, q2)) => match spec_block_items(t, fwd(pos + 1, q2), true, Seq::empty()) {
                    Err(e) => Err(e),
                    Ok((yes, q3)) => {
                        if pos < q3 < t.len() && t[q3 as int].token_type is Else {
                            match spec_block(t, q3 + 1) {
                                Err(e) => Err(e),
                                Ok((no, q4)) => Ok((
                                    SStmt::Conditional { condition, true_branch: yes, false_branch: Some(no) },
                                    q4,
                                )),
                            }
                        } else {
                            match spec_consume(t, q3, TokenType::End, ParserError::UnterminatedBlock) {
                                Err(e) => Err(e),
                                Ok((_, q4)) => Ok((
                                    SStmt::Conditional { condition, true_branch: yes, false_branch: None },
                                    q4,
                                )),
                            }
                        }
                    },
                },
            },
        }
    }
}

/// `WHILE ::= "while" OR "do" DECLARATION* "end"`
pub open spec fn spec_while_stmt(t: Seq<Token>, pos: nat) -> Parsed<SStmt>
    decreases rem(t, pos), 0nat,
{
    if pos >= t.len() {
        Err((err_at(t, pos, ParserError::UnexpectedEOF), pos))
    } else {
        match spec_level(t, pos + 1, 6) {
            Err(e) => Err(e),
            Ok((condition, q)) => match spec_consume(t, q, TokenType::Do, ParserError::MissingDoBlockStart) {
                Err(e) => Err(e),
                Ok((_, q2)) => match spec_block(t, fwd(pos + 1, q2)) {
                    Err(e) => Err(e),
                    Ok((stmts, q3)) => Ok((SStmt::While { condition, stmts }, q3)),
                },
            },
        }
    }
}

/// `FOR ::= "for" IDENTIFIER "in" RANGE "do" DECLARATION* "end"`
pub open spec fn spec_for_stmt(t: Seq<Token>, pos: nat) -> Parsed<SStmt>
    decreases rem(t, pos), 0nat,
{
    if pos >= t.len() {
        Err((err_at(t, pos, ParserError::UnexpectedEOF), pos))
    } else {
        match spec_consume_identifier(t, pos + 1) {
            Err(e) => Err(e),
            Ok((identifier, q)) => match spec_consume(t, q, TokenType::In, ParserError::MissingKeywordIn) {
                Err(e) => Err(e),
                Ok((_, q2)) => match spec_range(t, q2) {
                    Err(e) => Err(e),
                    Ok(((start, condition, end, step), q3)) => match spec_consume(
                        t,
                        q3,
                        TokenType::Do,
                        ParserError::MissingDoBlockStart,
                    ) {
                        Err(e) => Err(e),
                        Ok((_, q4)) => match spec_block(t, fwd(pos + 1, q4)) {
                            Err(e) => Err(e),
                            Ok((stmts, q5)) => Ok((
                                SStmt::For {
                                    identifier,
                                    start,
                                    end,
                                    step: match step {
                                        Some(s) => s,
                                        None => crate::stmt::spec_default_step(condition),
                                    },
                                    condition,
                                    stmts,
                                },
                                q5,
                            )),
                        },
                    },
                },
            },
        }
    }
}

/// `RANGE ::= "[" OR ".." ( "<" | ">" ) OR ( ";" OR )? "]"`
pub open spec fn spec_range(t: Seq<Token>, pos: nat) -> Parsed<SRange>
    decreases rem(t, pos), 0nat,
{
    match spec_consume(t, pos, TokenType::LeftBracket, ParserError::ExpectedRangeStart) {
        Err(e) => Err(e),
        Ok((_, q)) => match spec_level(t, q, 6) {
            Err(e) => Err(e),
            Ok((start, q2)) => match spec_consume(t, q2, TokenType::DotDot, ParserError::MissingRangeOperator) {
                Err(e) => Err(e),
                Ok((_, q3)) => match spec_consume_condition(t, q3) {
                    Err(e) => Err(e),
                    Ok((condition, q4)) => match spec_level(t, fwd(q, q4), 6) {
                        Err(e) => Err(e),
                        Ok((end, q5)) => {
                            let step = if q < q5 < t.len() && t[q5 as int].token_type is Semicolon {
                                match spec_level(t, q5 + 1, 6) {
                                    Err(e) => Err(e),
                                    Ok((s, q6)) => Ok((Some(s), q6)),
                                }
                            } else {
                                Ok((None, q5))
                            };
                            match step {
                                Err(e) => Err(e),
                                Ok((step, q6)) => match spec_consume(
                                    t,
                                    q6,
                                    TokenType::RightBracket,
                                    ParserError::UnclosedRange,
                                ) {
                                    Err(e) => Err(e),
                                    Ok((_, q7)) => Ok(((start, condition, end, step), q7)),
                                },
                            }
                        },
                    },
                },
            },
        },
    }
}

/// `RETURN ::= "return" LAMBDA? ";"`; a bare `return;` returns `nil`.
pub open spec fn spec_return_stmt(t: Seq<Token>, pos: nat) -> Parsed<SStmt>
    decreases rem(t, pos), 0nat,
{
    if pos >= t.len() {
        Err((err_at(t, pos, ParserError::UnexpectedEOF), pos))
    } else if pos + 1 < t.len() && t[pos + 1 as int].token_type is Semicolon {
        Ok((crate::stmt::spec_return_nil()@, pos + 2))
    } else {
        match spec_lambda(t, pos + 1) {
            Err(e) => Err(e),
            Ok((expr, q)) => match spec_consume(t, q, TokenType::Semicolon, ParserError::UnterminatedStmt) {
                Err(e) => Err(e),
                Ok((_, q2)) => Ok((SStmt::Return(expr), q2)),
            },
        }
    }
}

/// `BREAK ::= "break" ";"`
pub open spec fn spec_break_stmt(t: Seq<Token>, pos: nat) -> Parsed<SStmt> {
    match spec_consume(t, pos + 1, TokenType::Semicolon, ParserError::UnterminatedStmt) {
        Err(e) => Err(e),
        Ok((_, q)) => Ok((SStmt::Break, q)),
    }
}

/// `CONTINUE ::= "continue" ";"`
pub open spec fn spec_continue_stmt(t: Seq<Token>, pos: nat) -> Parsed<SStmt> {
    match spec_consume(t, pos + 1, TokenType::Semicolon, ParserError::UnterminatedStmt) {
        Err(e) => Err(e),
        Ok((_, q)) => Ok((SStmt::Continue, q)),
    }
}

/// `EXPR_STATEMENT ::= EXPRESSION ";"`
pub open spec fn spec_expr_statement(t: Seq<Token>, pos: nat) -> Parsed<SStmt>
    decreases rem(t, pos), 15nat,
{
    match spec_assignment(t, pos) {
        Err(e) => Err(e),
        Ok((expr, q)) => match spec_consume(t, q, TokenType::Semicolon, ParserError::UnterminatedStmt) {
            Err(e) => Err(e),
            Ok((_, q2)) => Ok((SStmt::Expr(expr), q2)),
        },
    }
}

/// `DECLARATION* "end"`
pub open spec fn spec_block(t: Seq<Token>, pos: nat) -> Parsed<Seq<SStmt>>
    decreases rem(t, pos), 19nat,
{
    match spec_block_items(t, pos, false, Seq::empty()) {
        Err(e) => Err(e),
        Ok((stmts, q)) => match spec_consume(t, q, TokenType::End, ParserError::UnterminatedBlock) {
            Err(e) => Err(e),
            Ok((_, q2)) => Ok((stmts, q2)),
        },
    }
}

/// Whether the token type ends a list of declarations: `end`, or also `else`
/// in the first branch of a conditional statement.
pub open spec fn ends_block(tt: TokenType, stop_at_else: bool) -> bool {
    tt is End || (stop_at_else && tt is Else)
}

/// `DECLARATION*`, up to the end of the tokens or a token that ends the block,
/// after the declarations `items` already read.
pub open spec fn spec_block_items(t: Seq<Token>, pos: nat, stop_at_else: bool, items: Seq<SStmt>) -> Parsed<Seq<SStmt>>
    decreases rem(t, pos), 18nat,
{
    if pos < t.len() && !ends_block(t[pos as int].token_type, stop_at_else) {
        match spec_declaration(t, pos) {
            Err(e) => Err(e),
            Ok((stmt, q)) => spec_block_items(t, fwd(pos + 1, q), stop_at_else, items.push(stmt)),
        }
    } else {
        Ok((items, pos))
    }
}

// ----- Programs ------------------------------------------------------------

/// Where reading resumes after an error found before `pos`: past the next `;`
/// or `)`, or at the next keyword that starts a declaration or statement, or at
/// the end.
pub open spec fn spec_synchronize(t: Seq<Token>, pos: nat) -> nat
    decreases rem(t, pos),
{
    if pos < t.len() {
        let tt = t[pos as int].token_type;
        if tt is Semicolon || tt is RightParenthesis {
            pos + 1
        } else if is_sync_stop(tt) {
            pos
        } else {
            spec_synchronize(t, pos + 1)
        }
    } else {
        pos
    }
}

/// `PROGRAM ::= DECLARATION* EOF`: the declarations read from `pos` on and the
/// errors found, after `stmts` and `errors`. After an error, reading goes on
/// where `spec_synchronize` says.
pub open spec fn spec_program(
    t: Seq<Token>,
    pos: nat,
    stmts: Seq<SStmt>,
    errors: Seq<Error<ParserError>>,
) -> (Seq<SStmt>, Seq<Error<ParserError>>)
    decreases rem(t, pos),
{
    if pos < t.len() {
        match spec_declaration(t, pos) {
            Ok((stmt, q)) => spec_program(t, fwd(pos + 1, q), stmts.push(stmt), errors),
            Err((e, q)) => spec_program(t, fwd(pos + 1, spec_synchronize(t, q)), stmts, errors.push(e)),
        }
    } else {
        (stmts, errors)
    }
}

/// What parsing a whole sequence of tokens gives: the statements read and the
/// errors found.
pub open spec fn spec_parse_tokens(t: Seq<Token>) -> (Seq<SStmt>, Seq<Error<ParserError>>) {
    spec_program(t, 0, Seq::empty(), Seq::empty())
}

// ---------------------------------------------------------------------------
// The parser: each function reads the tokens as the rule of the same name
// above does, and gives the same result.
// ---------------------------------------------------------------------------

proof fn lemma_exprs_view_push(s: Seq<Expr>, e: Expr)
    ensures
        crate::expr::exprs_view(s.push(e)) == crate::expr::exprs_view(s).push(e@),
        crate::expr::exprs_view(s.push(e)).len() == s.len() + 1,
{
    assert(s.push(e).drop_last() =~= s);
    crate::expr::lemma_exprs_view_len(s.push(e));
}

/// The error `e` at the token at `pos`, or at the end of input.
fn error_at(tokens: &Vec<Token>, pos: usize, e: ParserError) -> (r: Error<ParserError>)
    ensures
        r == err_at(tokens@, pos as nat, e),
{
    if pos < tokens.len() {
        Error::new(Pos::from(tokens[pos].line), e)
    } else {
        Error::new(Pos::EOF, e)
    }
}

fn level_op(lvl: u8, tt: &TokenType) -> (r: bool)
    ensures
        r == is_level_op(lvl as nat, *tt),
{
    if lvl == 6 {
        matches!(tt, TokenType::Or)
    } else if lvl == 5 {
        matches!(tt, TokenType::And)
    } else if lvl == 4 {
        matches!(tt, TokenType::BangEqual | TokenType::EqualEqual)
    } else if lvl == 3 {
        matches!(tt, TokenType::Lesser | TokenType::LesserEqual | TokenType::Greater | TokenType::GreaterEqual)
    } else if lvl == 2 {
        matches!(tt, TokenType::Minus | TokenType::Plus)
    } else {
        matches!(tt, TokenType::Slash | TokenType::Star)
    }
}

fn literal_type(tt: &TokenType) -> (r: bool)
    ensures
        r == is_literal(*tt),
{
    matches!(tt, TokenType::False | TokenType::True | TokenType::Nil | TokenType::String(_) | TokenType::Number(_))
}

fn sync_stop(tt: &TokenType) -> (r: bool)
    ensures
        r == is_sync_stop(*tt),
{
    matches!(tt, TokenType::Fun | TokenType::Return | TokenType::Let | TokenType::For | TokenType::While | TokenType::If)
}

/// Reads the next token, which must be of the variant of `k`.
fn consume(tokens: &Vec<Token>, pos: usize, k: &TokenType, err: ParserError) -> (r: Step<Token>)
    requires
        pos <= tokens@.len(),
    ensures
        landed(r, pos, tokens@.len()),
        seen_token(r) == spec_consume(tokens@, pos as nat, *k, err),
{
    if pos < tokens.len() {
        if tokens[pos].token_type.same_kind(k) {
            Ok((tokens[pos].duplicate(), pos + 1))
        } else {
            Err((Error::new(Pos::from(tokens[pos].line), err), pos + 1))
        }
    } else {
        Err((Error::new(Pos::EOF, err), pos))
    }
}

/// Reads the next token if it is an identifier.
fn consume_identifier(tokens: &Vec<Token>, pos: usize) -> (r: Step<Token>)
    requires
        pos <= tokens@.len(),
    ensures
        landed(r, pos, tokens@.len()),
        seen_token(r) == spec_consume_identifier(tokens@, pos as nat),
{
    if pos < tokens.len() && matches!(tokens[pos].token_type, TokenType::Identifier(_)) {
        Ok((tokens[pos].duplicate(), pos + 1))
    } else {
        Err((error_at(tokens, pos, ParserError::ExpectedIdentifier), pos))
    }
}

/// Reads the next token, which must be `<` or `>`.
fn consume_condition(tokens: &Vec<Token>, pos: usize) -> (r: Step<Token>)
    requires
        pos <= tokens@.len(),
    ensures
        landed(r, pos, tokens@.len()),
        seen_token(r) == spec_consume_condition(tokens@, pos as nat),
{
    if pos < tokens.len() {
        if matches!(tokens[pos].token_type, TokenType::Lesser | TokenType::Greater) {
            Ok((tokens[pos].duplicate(), pos + 1))
        } else {
            Err((Error::new(Pos::from(tokens[pos].line), ParserError::MissingRangeCondition), pos + 1))
        }
    } else {
        Err((Error::new(Pos::EOF, ParserError::MissingRangeCondition), pos))
    }
}

#[verifier::spinoff_prover]
fn expression(tokens: &Vec<Token>, pos: usize) -> (r: Step<Expr>)
    requires
        pos <= tokens@.len(),
    ensures
        landed(r, pos, tokens@.len()),
        seen_expr(r) == spec_assignment(tokens@, pos as nat),
    decreases rem(tokens@, pos as nat), 14nat,
{
    assignment(tokens, pos)
}

#[verifier::spinoff_prover]
fn assignment(tokens: &Vec<Token>, pos: usize) -> (r: Step<Expr>)
    requires
        pos <= tokens@.len(),
    ensures
        landed(r, pos, tokens@.len()),
        seen_expr(r) == spec_assignment(tokens@, pos as nat),
    decreases rem(tokens@, pos as nat), 13nat,
{
    match lambda(tokens, pos) {
        Err(e) => Err(e),
        Ok((target, p)) => {
            if p < tokens.len() && matches!(tokens[p].token_type, TokenType::Equal) {
                let eq_line = tokens[p].line;
                match assignment(tokens, p + 1) {
                    Err(e) => Err(e),
                    Ok((value, q)) => {
                        if matches!(target, Expr::Variable(_)) {
                            Ok((Expr::assignment(target, value), q))
                        } else {
                            Err((Error::new(Pos::from(eq_line), ParserError::InvalidAssignment), q))
                        }
                    },
                }
            } else {
                Ok((target, p))
            }
        },
    }
}

#[verifier::spinoff_prover]
fn lambda(tokens: &Vec<Token>, pos: usize) -> (r: Step<Expr>)
    requires
        pos <= tokens@.len(),
    ensures
        landed(r, pos, tokens@.len()),
        seen_expr(r) == spec_lambda(tokens@, pos as nat),
    decreases rem(tokens@, pos as nat), 11nat,
{
    if pos < tokens.len() && matches!(tokens[pos].token_type, TokenType::Fn) {
        let who = tokens[pos].token_type.duplicate();
        match params(tokens, pos + 1, &who) {
            Err(e) => Err(e),
            Ok((ps, q)) => match lambda(tokens, q) {
                Err(e) => Err(e),
                Ok((body, q2)) => Ok((Expr::lambda(ps, body), q2)),
            },
        }
    } else {
        level(tokens, pos, 6)
    }
}

#[verifier::spinoff_prover]
fn level(tokens: &Vec<Token>, pos: usize, lvl: u8) -> (r: Step<Expr>)
    requires
        pos <= tokens@.len(),
        1 <= lvl <= 6,
    ensures
        landed(r, pos, tokens@.len()),
        seen_expr(r) == spec_level(tokens@, pos as nat, lvl as nat),
    decreases rem(tokens@, pos as nat), lvl + 4,
{
    let first = if lvl <= 1 {
        unary(tokens, pos)
    } else {
        level(tokens, pos, lvl - 1)
    };
    let (mut expr, mut p) = match first {
        Err(e) => {
            return Err(e);
        },
        Ok(x) => x,
    };
    while p < tokens.len() && level_op(lvl, &tokens[p].token_type)
        invariant
            pos <= p <= tokens@.len(),
            1 <= lvl <= 6,
            spec_level(tokens@, pos as nat, lvl as nat) == spec_level_rest(tokens@, p as nat, lvl as nat, expr@),
        decreases tokens@.len() - p,
    {
        let op = tokens[p].duplicate();
        let right = if lvl <= 1 {
            unary(tokens, p + 1)
        } else {
            level(tokens, p + 1, lvl - 1)
        };
        match right {
            Err(e) => {
                return Err(e);
            },
            Ok((r, q)) => {
                expr = Expr::binary(expr, op, r);
                p = q;
            },
        }
    }
    Ok((expr, p))
}

#[verifier::spinoff_prover]
fn unary(tokens: &Vec<Token>, pos: usize) -> (r: Step<Expr>)
    requires
        pos <= tokens@.len(),
    ensures
        landed(r, pos, tokens@.len()),
        seen_expr(r) == spec_unary(tokens@, pos as nat),
    decreases rem(tokens@, pos as nat), 3nat,
{
    if pos < tokens.len() && matches!(tokens[pos].token_type, TokenType::Not | TokenType::Minus) {
        let op = tokens[pos].duplicate();
        match unary(tokens, pos + 1) {
            Err(e) => Err(e),
            Ok((right, q)) => Ok((Expr::unary(op, right), q)),
        }
    } else {
        call(tokens, pos)
    }
}

#[verifier::spinoff_prover]
fn call(tokens: &Vec<Token>, pos: usize) -> (r: Step<Expr>)
    requires
        pos <= tokens@.len(),
    ensures
        landed(r, pos, tokens@.len()),
        seen_expr(r) == spec_call(tokens@, pos as nat),
    decreases rem(tokens@, pos as nat), 2nat,
{
    let (mut callee, mut p) = match primary(tokens, pos) {
        Err(e) => {
            return Err(e);
        },
        Ok(x) => x,
    };
    while p < tokens.len() && matches!(tokens[p].token_type, TokenType::LeftParenthesis)
        invariant
            pos <= p <= tokens@.len(),
            spec_call(tokens@, pos as nat) == spec_call_rest(tokens@, p as nat, callee@),
        decreases tokens@.len() - p,
    {
        match finish_call(tokens, p + 1) {
            Err(e) => {
                return Err(e);
            },
            Ok(((paren, args), q)) => {
                callee = Expr::callable(callee, paren, args);
                p = q;
            },
        }
    }
    Ok((callee, p))
}

#[verifier::spinoff_prover]
fn finish_call(tokens: &Vec<Token>, pos: usize) -> (r: Step<(Token, Vec<Expr>)>)
    requires
        pos <= tokens@.len(),
    ensures
        landed(r, pos, tokens@.len()),
        seen_call(r) == spec_finish_call(tokens@, pos as nat),
    decreases rem(tokens@, pos as nat), 12nat,
{
    let mut args: Vec<Expr> = Vec::new();
    let mut p = pos;
    if pos < tokens.len() && !matches!(tokens[pos].token_type, TokenType::RightParenthesis) {
        match arguments(tokens, pos) {
            Err(e) => {
                return Err(e);
            },
            Ok((a, q)) => {
                args = a;
                p = q;
            },
        }
    } else {
        assert(crate::expr::exprs_view(args@) =~= Seq::<SExpr>::empty());
    }
    match consume(tokens, p, &TokenType::RightParenthesis, ParserError::UnclosedCallExpr) {
        Err(e) => Err(e),
        Ok((paren, q)) => Ok(((paren, args), q)),
    }
}

#[verifier::spinoff_prover]
fn arguments(tokens: &Vec<Token>, pos: usize) -> (r: Step<Vec<Expr>>)
    requires
        pos <= tokens@.len(),
    ensures
        landed(r, pos, tokens@.len()),
        seen_exprs(r) == spec_arguments(tokens@, pos as nat, Seq::empty()),
    decreases rem(tokens@, pos as nat), 11nat,
{
    let mut args: Vec<Expr> = Vec::new();
    let mut p = pos;
    assert(crate::expr::exprs_view(args@) =~= Seq::<SExpr>::empty());
    loop
        invariant
            pos <= p <= tokens@.len(),
            spec_arguments(tokens@, pos as nat, Seq::empty()) == spec_arguments(
                tokens@,
                p as nat,
                crate::expr::exprs_view(args@),
            ),
            crate::expr::exprs_view(args@).len() == args@.len(),
        decreases tokens@.len() - p,
    {
        match level(tokens, p, 6) {
            Err(e) => {
                return Err(e);
            },
            Ok((arg, q)) => {
                proof {
                    lemma_exprs_view_push(args@, arg);
                }
                args.push(arg);
                if q < tokens.len() && matches!(tokens[q].token_type, TokenType::Comma) {
                    if args.len() >= 255 {
                        return Err((error_at(tokens, q + 1, ParserError::ExcessiveArguments), q + 1));
                    }
                    p = q + 1;
                } else {
                    return Ok((args, q));
                }
            },
        }
    }
}

#[verifier::spinoff_prover]
fn primary(tokens: &Vec<Token>, pos: usize) -> (r: Step<Expr>)
    requires
        pos <= tokens@.len(),
    ensures
        landed(r, pos, tokens@.len()),
        seen_expr(r) == spec_primary(tokens@, pos as nat),
    decreases rem(tokens@, pos as nat), 1nat,
{
    if pos < tokens.len() && matches!(tokens[pos].token_type, TokenType::LeftParenthesis) {
        grouping(tokens, pos + 1)
    } else if pos < tokens.len() && matches!(tokens[pos].token_type, TokenType::If) {
        conditional_expr(tokens, pos + 1)
    } else {
        atom(tokens, pos)
    }
}

fn atom(tokens: &Vec<Token>, pos: usize) -> (r: Step<Expr>)
    requires
        pos <= tokens@.len(),
    ensures
        landed(r, pos, tokens@.len()),
        seen_expr(r) == spec_atom(tokens@, pos as nat),
{
    if pos >= tokens.len() {
        return Err((Error::new(Pos::EOF, ParserError::UnexpectedEOF), pos));
    }
    let tt = &tokens[pos].token_type;
    if literal_type(tt) {
        Ok((Expr::literal(tokens[pos].duplicate()), pos + 1))
    } else if matches!(tt, TokenType::ExposedFunction(_)) {
        Ok((Expr::exposed_fn(tokens[pos].duplicate()), pos + 1))
    } else if matches!(tt, TokenType::Identifier(_)) {
        Ok((Expr::variable(tokens[pos].duplicate()), pos + 1))
    } else {
        Err((Error::new(Pos::from(tokens[pos].line), ParserError::InvalidToken(tt.duplicate())), pos))
    }
}

#[verifier::spinoff_prover]
fn grouping(tokens: &Vec<Token>, pos: usize) -> (r: Step<Expr>)
    requires
        pos <= tokens@.len(),
    ensures
        landed(r, pos, tokens@.len()),
        seen_expr(r) == spec_grouping(tokens@, pos as nat),
    decreases rem(tokens@, pos as nat), 14nat,
{
    match assignment(tokens, pos) {
        Err(e) => Err(e),
        Ok((inner, q)) => match consume(tokens, q, &TokenType::RightParenthesis, ParserError::UnclosedExpr) {
            Err(e) => Err(e),
            Ok((_, q2)) => Ok((Expr::grouping(inner), q2)),
        },
    }
}

#[verifier::spinoff_prover]
fn conditional_expr(tokens: &Vec<Token>, pos: usize) -> (r: Step<Expr>)
    requires
        pos <= tokens@.len(),
    ensures
        landed(r, pos, tokens@.len()),
        seen_expr(r) == spec_conditional_expr(tokens@, pos as nat),
    decreases rem(tokens@, pos as nat), 11nat,
{
    match level(tokens, pos, 6) {
        Err(e) => Err(e),
        Ok((condition, p)) => conditional_then(tokens, p, condition),
    }
}

#[verifier::spinoff_prover]
fn conditional_then(tokens: &Vec<Token>, pos: usize, condition: Expr) -> (r: Step<Expr>)
    requires
        pos <= tokens@.len(),
    ensures
        landed(r, pos, tokens@.len()),
        seen_expr(r) == spec_conditional_then(tokens@, pos as nat, condition@),
    decreases rem(tokens@, pos as nat), 0nat,
{
    match consume(tokens, pos, &TokenType::Then, ParserError::MissingThenToken) {
        Err(e) => Err(e),
        Ok((_, p)) => match level(tokens, p, 6) {
            Err(e) => Err(e),
            Ok((yes, q)) => conditional_else(tokens, q, condition, yes),
        },
    }
}

#[verifier::spinoff_prover]
fn conditional_else(tokens: &Vec<Token>, pos: usize, condition: Expr, yes: Expr) -> (r: Step<Expr>)
    requires
        pos <= tokens@.len(),
    ensures
        landed(r, pos, tokens@.len()),
        seen_expr(r) == spec_conditional_else(tokens@, pos as nat, condition@, yes@),
    decreases rem(tokens@, pos as nat), 0nat,
{
    match consume(tokens, pos, &TokenType::Else, ParserError::MissingElseToken) {
        Err(e) => Err(e),
        Ok((_, p)) => match level(tokens, p, 6) {
            Err(e) => Err(e),
            Ok((no, q)) => match consume(tokens, q, &TokenType::End, ParserError::UnterminatedIfElseExpr) {
                Err(e) => Err(e),
                Ok((_, q2)) => Ok((Expr::conditional(condition, yes, no), q2)),
            },
        },
    }
}

/// `"(" PARAMETERS? ")"` of a function or lambda named by `who`.
fn params(tokens: &Vec<Token>, pos: usize, who: &TokenType) -> (r: Step<Vec<Token>>)
    requires
        pos <= tokens@.len(),
    ensures
        landed(r, pos, tokens@.len()),
        seen_tokens(r) == spec_params(tokens@, pos as nat, *who),
{
    let p = match consume(
        tokens,
        pos,
        &TokenType::LeftParenthesis,
        ParserError::ExpectedLeftParenthesisFnDecl(who.duplicate()),
    ) {
        Err(e) => {
            return Err(e);
        },
        Ok((_, q)) => q,
    };
    let mut list: Vec<Token> = Vec::new();
    let mut p2 = p;
    if p < tokens.len() && !matches!(tokens[p].token_type, TokenType::RightParenthesis) {
        match param_list(tokens, p, who) {
            Err(e) => {
                return Err(e);
            },
            Ok((l, q)) => {
                list = l;
                p2 = q;
            },
        }
    }
    match consume(
        tokens,
        p2,
        &TokenType::RightParenthesis,
        ParserError::MissingRightParenthesisFnDecl(who.duplicate()),
    ) {
        Err(e) => Err(e),
        Ok((_, q)) => Ok((list, q)),
    }
}

fn param_list(tokens: &Vec<Token>, pos: usize, who: &TokenType) -> (r: Step<Vec<Token>>)
    requires
        pos <= tokens@.len(),
    ensures
        landed(r, pos, tokens@.len()),
        seen_tokens(r) == spec_param_list(tokens@, pos as nat, Seq::empty(), *who),
{
    let mut list: Vec<Token> = Vec::new();
    let mut p = pos;
    loop
        invariant
            pos <= p <= tokens@.len(),
            spec_param_list(tokens@, pos as nat, Seq::empty(), *who) == spec_param_list(
                tokens@,
                p as nat,
                list@,
                *who,
            ),
        decreases tokens@.len() - p,
    {
        match consume_identifier(tokens, p) {
            Err(e) => {
                return Err(e);
            },
            Ok((param, q)) => {
                list.push(param);
                if q < tokens.len() && matches!(tokens[q].token_type, TokenType::Comma) {
                    if list.len() >= 255 {
                        return Err(
                            (
                                error_at(tokens, q + 1, ParserError::ExcessiveArgumentsFunDecl(who.duplicate())),
                                q + 1,
                            ),
                        );
                    }
                    p = q + 1;
                } else {
                    return Ok((list, q));
                }
            },
        }
    }
}

// ----- Statements ----------------------------------------------------------

#[verifier::spinoff_prover]
fn declaration(tokens: &Vec<Token>, pos: usize) -> (r: Step<Stmt>)
    requires
        pos <= tokens@.len(),
    ensures
        landed(r, pos, tokens@.len()),
        seen_stmt(r) == spec_declaration(tokens@, pos as nat),
        r is Ok ==> stop(r) > pos,
        r is Err && pos < tokens@.len() ==> stop(r) > pos || !is_sync_stop(tokens@[pos as int].token_type),
    decreases rem(tokens@, pos as nat), 17nat,
{
    if pos >= tokens.len() {
        Err((Error::new(Pos::EOF, ParserError::UnexpectedEOF), pos))
    } else if matches!(tokens[pos].token_type, TokenType::Fun) {
        fun_declaration(tokens, pos)
    } else if matches!(tokens[pos].token_type, TokenType::Let) {
        var_declaration(tokens, pos)
    } else {
        statement(tokens, pos)
    }
}

#[verifier::spinoff_prover]
fn fun_declaration(tokens: &Vec<Token>, pos: usize) -> (r: Step<Stmt>)
    requires
        pos < tokens.len(),
    ensures
        landed(r, pos, tokens@.len()),
        seen_stmt(r) == spec_fun_declaration(tokens@, pos as nat),
        stop(r) > pos,
    decreases rem(tokens@, pos as nat), 0nat,
{
    let (identifier, p) = match consume_identifier(tokens, pos + 1) {
        Err(e) => {
            return Err(e);
        },
        Ok(x) => x,
    };
    let who = identifier.token_type.duplicate();
    let (ps, p2) = match params(tokens, p, &who) {
        Err(e) => {
            return Err(e);
        },
        Ok(x) => x,
    };
    match block(tokens, p2) {
        Err(e) => Err(e),
        Ok((body, q)) => Ok((Stmt::function(identifier, ps, body), q)),
    }
}

#[verifier::spinoff_prover]
fn var_declaration(tokens: &Vec<Token>, pos: usize) -> (r: Step<Stmt>)
    requires
        pos < tokens.len(),
    ensures
        landed(r, pos, tokens@.len()),
        seen_stmt(r) == spec_var_declaration(tokens@, pos as nat),
        stop(r) > pos,
    decreases rem(tokens@, pos as nat), 0nat,
{
    let (target, p) = match consume_identifier(tokens, pos + 1) {
        Err(e) => {
            return Err(e);
        },
        Ok(x) => x,
    };
    let p2 = match consume(tokens, p, &TokenType::ColonEqual, ParserError::UnterminatedStmt) {
        Err(e) => {
            return Err(e);
        },
        Ok((_, q)) => q,
    };
    let (expr, p3) = match expression(tokens, p2) {
        Err(e) => {
            return Err(e);
        },
        Ok(x) => x,
    };
    match consume(tokens, p3, &TokenType::Semicolon, ParserError::UnterminatedStmt) {
        Err(e) => Err(e),
        Ok((_, q)) => Ok((Stmt::var(target, expr), q)),
    }
}

#[verifier::spinoff_prover]
fn statement(tokens: &Vec<Token>, pos: usize) -> (r: Step<Stmt>)
    requires
        pos <= tokens@.len(),
    ensures
        landed(r, pos, tokens@.len()),
        seen_stmt(r) == spec_statement(tokens@, pos as nat),
        r is Ok ==> stop(r) > pos,
        r is Err && pos < tokens@.len() ==> stop(r) > pos || !(tokens@[pos as int].token_type is Return
            || tokens@[pos as int].token_type is For || tokens@[pos as int].token_type is While
            || tokens@[pos as int].token_type is If),
    decreases rem(tokens@, pos as nat), 16nat,
{
    if pos >= tokens.len() {
        return Err((Error::new(Pos::EOF, ParserError::UnexpectedEOF), pos));
    }
    let tt = &tokens[pos].token_type;
    if matches!(tt, TokenType::Print) {
        print_stmt(tokens, pos)
    } else if matches!(tt, TokenType::If) {
        conditional_stmt(tokens, pos)
    } else if matches!(tt, TokenType::While) {
        while_stmt(tokens, pos)
    } else if matches!(tt, TokenType::For) {
        for_stmt(tokens, pos)
    } else if matches!(tt, TokenType::Return) {
        return_stmt(tokens, pos)
    } else if matches!(tt, TokenType::Break) {
        break_stmt(tokens, pos)
    } else if matches!(tt, TokenType::Continue) {
        continue_stmt(tokens, pos)
    } else if matches!(tt, TokenType::Begin) {
        let (stmts, q) = match block(tokens, pos + 1) {
            Err(e) => {
                return Err(e);
            },
            Ok(x) => x,
        };
        match consume(tokens, q, &TokenType::Semicolon, ParserError::UnterminatedStmt) {
            Err(e) => Err(e),
            Ok((_, q2)) => Ok((Stmt::block(stmts), q2)),
        }
    } else {
        expr_statement(tokens, pos)
    }
}

#[verifier::spinoff_prover]
fn print_stmt(tokens: &Vec<Token>, pos: usize) -> (r: Step<Stmt>)
    requires
        pos < tokens.len(),
    ensures
        landed(r, pos, tokens@.len()),
        seen_stmt(r) == spec_print_stmt(tokens@, pos as nat),
        stop(r) > pos,
    decreases rem(tokens@, pos as nat), 0nat,
{
    let p = match consume(tokens, pos + 1, &TokenType::LeftParenthesis, ParserError::InvalidPrint) {
        Err(e) => {
            return Err(e);
        },
        Ok((_, q)) => q,
    };
    let (expr, p2) = match level(tokens, p, 6) {
        Err(e) => {
            return Err(e);
        },
        Ok(x) => x,
    };
    let p3 = match consume(tokens, p2, &TokenType::RightParenthesis, ParserError::UnclosedExpr) {
        Err(e) => {
            return Err(e);
        },
        Ok((_, q)) => q,
    };
    match consume(tokens, p3, &TokenType::Semicolon, ParserError::UnterminatedStmt) {
        Err(e) => Err(e),
        Ok((_, q)) => Ok((Stmt::print(expr), q)),
    }
}

#[verifier::spinoff_prover]
fn conditional_stmt(tokens: &Vec<Token>, pos: usize) -> (r: Step<Stmt>)
    requires
        pos < tokens.len(),
    ensures
        landed(r, pos, tokens@.len()),
        seen_stmt(r) == spec_conditional_stmt(tokens@, pos as nat),
        stop(r) > pos,
    decreases rem(tokens@, pos as nat), 0nat,
{
    let (condition, p) = match level(tokens, pos + 1, 4) {
        Err(e) => {
            return Err(e);
        },
        Ok(x) => x,
    };
    let p2 = match consume(tokens, p, &TokenType::Then, ParserError::MissingThenToken) {
        Err(e) => {
            return Err(e);
        },
        Ok((_, q)) => q,
    };
    let (yes, p3) = match block_items(tokens, p2, true) {
        Err(e) => {
            return Err(e);
        },
        Ok(x) => x,
    };
    if p3 < tokens.len() && matches!(tokens[p3].token_type, TokenType::Else) {
        match block(tokens, p3 + 1) {
            Err(e) => Err(e),
            Ok((no, q)) => Ok((Stmt::conditional(condition, yes, Some(no)), q)),
        }
    } else {
        match consume(tokens, p3, &TokenType::End, ParserError::UnterminatedBlock) {
            Err(e) => Err(e),
            Ok((_, q)) => Ok((Stmt::conditional(condition, yes, None), q)),
        }
    }
}

#[verifier::spinoff_prover]
fn while_stmt(tokens: &Vec<Token>, pos: usize) -> (r: Step<Stmt>)
    requires
        pos < tokens.len(),
    ensures
        landed(r, pos, tokens@.len()),
        seen_stmt(r) == spec_while_stmt(tokens@, pos as nat),
        stop(r) > pos,
    decreases rem(tokens@, pos as nat), 0nat,
{
    let (condition, p) = match level(tokens, pos + 1, 6) {
        Err(e) => {
            return Err(e);
        },
        Ok(x) => x,
    };
    let p2 = match consume(tokens, p, &TokenType::Do, ParserError::MissingDoBlockStart) {
        Err(e) => {
            return Err(e);
        },
        Ok((_, q)) => q,
    };
    match block(tokens, p2) {
        Err(e) => Err(e),
        Ok((stmts, q)) => Ok((Stmt::while_stmt(condition, stmts), q)),
    }
}

#[verifier::spinoff_prover]
fn for_stmt(tokens: &Vec<Token>, pos: usize) -> (r: Step<Stmt>)
    requires
        pos < tokens.len(),
    ensures
        landed(r, pos, tokens@.len()),
        seen_stmt(r) == spec_for_stmt(tokens@, pos as nat),
        stop(r) > pos,
    decreases rem(tokens@, pos as nat), 0nat,
{
    let (identifier, p) = match consume_identifier(tokens, pos + 1) {
        Err(e) => {
            return Err(e);
        },
        Ok(x) => x,
    };
    let p2 = match consume(tokens, p, &TokenType::In, ParserError::MissingKeywordIn) {
        Err(e) => {
            return Err(e);
        },
        Ok((_, q)) => q,
    };
    let ((start, condition, end, step), p3) = match range(tokens, p2) {
        Err(e) => {
            return Err(e);
        },
        Ok(x) => x,
    };
    let p4 = match consume(tokens, p3, &TokenType::Do, ParserError::MissingDoBlockStart) {
        Err(e) => {
            return Err(e);
        },
        Ok((_, q)) => q,
    };
    match block(tokens, p4) {
        Err(e) => Err(e),
        Ok((stmts, q)) => Ok((Stmt::for_stmt(identifier, start, end, step, condition, stmts), q)),
    }
}

#[verifier::spinoff_prover]
fn range(tokens: &Vec<Token>, pos: usize) -> (r: Step<(Expr, Token, Expr, Option<Expr>)>)
    requires
        pos <= tokens@.len(),
    ensures
        landed(r, pos, tokens@.len()),
        seen_range(r) == spec_range(tokens@, pos as nat),
    decreases rem(tokens@, pos as nat), 0nat,
{
    let p = match consume(tokens, pos, &TokenType::LeftBracket, ParserError::ExpectedRangeStart) {
        Err(e) => {
            return Err(e);
        },
        Ok((_, q)) => q,
    };
    let (start, p2) = match level(tokens, p, 6) {
        Err(e) => {
            return Err(e);
        },
        Ok(x) => x,
    };
    let p3 = match consume(tokens, p2, &TokenType::DotDot, ParserError::MissingRangeOperator) {
        Err(e) => {
            return Err(e);
        },
        Ok((_, q)) => q,
    };
    let (condition, p4) = match consume_condition(tokens, p3) {
        Err(e) => {
            return Err(e);
        },
        Ok(x) => x,
    };
    let (end, p5) = match level(tokens, p4, 6) {
        Err(e) => {
            return Err(e);
        },
        Ok(x) => x,
    };
    let mut step: Option<Expr> = None;
    let mut p6 = p5;
    if p5 < tokens.len() && matches!(tokens[p5].token_type, TokenType::Semicolon) {
        match level(tokens, p5 + 1, 6) {
            Err(e) => {
                return Err(e);
            },
            Ok((s, q)) => {
                step = Some(s);
                p6 = q;
            },
        }
    }
    match consume(tokens, p6, &TokenType::RightBracket, ParserError::UnclosedRange) {
        Err(e) => Err(e),
        Ok((_, q)) => Ok(((start, condition, end, step), q)),
    }
}

#[verifier::spinoff_prover]
fn return_stmt(tokens: &Vec<Token>, pos: usize) -> (r: Step<Stmt>)
    requires
        pos < tokens.len(),
    ensures
        landed(r, pos, tokens@.len()),
        seen_stmt(r) == spec_return_stmt(tokens@, pos as nat),
        stop(r) > pos,
    decreases rem(tokens@, pos as nat), 0nat,
{
    if pos + 1 < tokens.len() && matches!(tokens[pos + 1].token_type, TokenType::Semicolon) {
        return Ok((Stmt::return_stmt(None), pos + 2));
    }
    let (expr, p) = match lambda(tokens, pos + 1) {
        Err(e) => {
            return Err(e);
        },
        Ok(x) => x,
    };
    match consume(tokens, p, &TokenType::Semicolon, ParserError::UnterminatedStmt) {
        Err(e) => Err(e),
        Ok((_, q)) => Ok((Stmt::return_stmt(Some(expr)), q)),
    }
}

fn break_stmt(tokens: &Vec<Token>, pos: usize) -> (r: Step<Stmt>)
    requires
        pos < tokens.len(),
    ensures
        landed(r, pos, tokens@.len()),
        seen_stmt(r) == spec_break_stmt(tokens@, pos as nat),
        stop(r) > pos,
{
    match consume(tokens, pos + 1, &TokenType::Semicolon, ParserError::UnterminatedStmt) {
        Err(e) => Err(e),
        Ok((_, q)) => Ok((Stmt::break_stmt(), q)),
    }
}

fn continue_stmt(tokens: &Vec<Token>, pos: usize) -> (r: Step<Stmt>)
    requires
        pos < tokens.len(),
    ensures
        landed(r, pos, tokens@.len()),
        seen_stmt(r) == spec_continue_stmt(tokens@, pos as nat),
        stop(r) > pos,
{
    match consume(tokens, pos + 1, &TokenType::Semicolon, ParserError::UnterminatedStmt) {
        Err(e) => Err(e),
        Ok((_, q)) => Ok((Stmt::continue_stmt(), q)),
    }
}

#[verifier::spinoff_prover]
fn expr_statement(tokens: &Vec<Token>, pos: usize) -> (r: Step<Stmt>)
    requires
        pos <= tokens@.len(),
    ensures
        landed(r, pos, tokens@.len()),
        seen_stmt(r) == spec_expr_statement(tokens@, pos as nat),
        r is Ok ==> stop(r) > pos,
    decreases rem(tokens@, pos as nat), 15nat,
{
    let (expr, p) = match expression(tokens, pos) {
        Err(e) => {
            return Err(e);
        },
        Ok(x) => x,
    };
    match consume(tokens, p, &TokenType::Semicolon, ParserError::UnterminatedStmt) {
        Err(e) => Err(e),
        Ok((_, q)) => Ok((Stmt::expr(expr), q)),
    }
}

#[verifier::spinoff_prover]
fn block(tokens: &Vec<Token>, pos: usize) -> (r: Step<Vec<Stmt>>)
    requires
        pos <= tokens@.len(),
    ensures
        landed(r, pos, tokens@.len()),
        seen_stmts(r) == spec_block(tokens@, pos as nat),
    decreases rem(tokens@, pos as nat), 19nat,
{
    let (stmts, p) = match block_items(tokens, pos, false) {
        Err(e) => {
            return Err(e);
        },
        Ok(x) => x,
    };
    match consume(tokens, p, &TokenType::End, ParserError::UnterminatedBlock) {
        Err(e) => Err(e),
        Ok((_, q)) => Ok((stmts, q)),
    }
}

fn ends_block_exec(tt: &TokenType, stop_at_else: bool) -> (r: bool)
    ensures
        r == ends_block(*tt, stop_at_else),
{
    matches!(tt, TokenType::End) || (stop_at_else && matches!(tt, TokenType::Else))
}

#[verifier::spinoff_prover]
fn block_items(tokens: &Vec<Token>, pos: usize, stop_at_else: bool) -> (r: Step<Vec<Stmt>>)
    requires
        pos <= tokens@.len(),
    ensures
        landed(r, pos, tokens@.len()),
        seen_stmts(r) == spec_block_items(tokens@, pos as nat, stop_at_else, Seq::empty()),
    decreases rem(tokens@, pos as nat), 18nat,
{
    let mut items: Vec<Stmt> = Vec::new();
    let mut p = pos;
    assert(crate::stmt::stmts_view(items@) =~= Seq::<SStmt>::empty());
    while p < tokens.len() && !ends_block_exec(&tokens[p].token_type, stop_at_else)
        invariant
            pos <= p <= tokens@.len(),
            spec_block_items(tokens@, pos as nat, stop_at_else, Seq::empty()) == spec_block_items(
                tokens@,
                p as nat,
                stop_at_else,
                crate::stmt::stmts_view(items@),
            ),
        decreases tokens@.len() - p,
    {
        match declaration(tokens, p) {
            Err(e) => {
                return Err(e);
            },
            Ok((stmt, q)) => {
                proof {
                    crate::stmt::lemma_stmts_view_push(items@, stmt);
                }
                items.push(stmt);
                p = q;
            },
        }
    }
    Ok((items, p))
}

// ----- Programs ------------------------------------------------------------

fn synchronize(tokens: &Vec<Token>, pos: usize) -> (r: usize)
    requires
        pos <= tokens@.len(),
    ensures
        r == spec_synchronize(tokens@, pos as nat),
        pos <= r <= tokens@.len(),
        pos < tokens@.len() && !is_sync_stop(tokens@[pos as int].token_type) ==> r > pos,
{
    let mut p = pos;
    while p < tokens.len()
        invariant
            pos <= p <= tokens@.len(),
            spec_synchronize(tokens@, pos as nat) == spec_synchronize(tokens@, p as nat),
            p == pos || !(pos < tokens@.len() && !is_sync_stop(tokens@[pos as int].token_type)) || p > pos,
            pos < tokens@.len() && !is_sync_stop(tokens@[pos as int].token_type) ==> (p > pos || p == pos),
        decreases tokens@.len() - p,
    {
        let tt = &tokens[p].token_type;
        if matches!(tt, TokenType::Semicolon | TokenType::RightParenthesis) {
            return p + 1;
        } else if sync_stop(tt) {
            return p;
        }
        p = p + 1;
    }
    p
}

/// The statements read from a sequence of tokens and the errors found.
#[derive(Debug)]
pub struct ParserResult {
    errors: Vec<Error<ParserError>>,
    stmt: Vec<Stmt>,
}

impl ParserResult {
    pub closed spec fn spec_errors(&self) -> Seq<Error<ParserError>> {
        self.errors@
    }

    pub closed spec fn spec_stmts(&self) -> Seq<SStmt> {
        crate::stmt::stmts_view(self.stmt@)
    }

    pub fn into_stmt(self) -> (r: Vec<Stmt>)
        ensures
            crate::stmt::stmts_view(r@) == self.spec_stmts(),
    {
        self.stmt
    }

    pub fn into_err(self) -> (r: Vec<Error<ParserError>>)
        ensures
            r@ == self.spec_errors(),
    {
        self.errors
    }

    pub fn has_err(&self) -> (r: bool)
        ensures
            r == (self.spec_errors().len() > 0),
    {
        !self.errors.is_empty()
    }
}

/// Reads declarations and statements from the tokens.
#[derive(Debug)]
pub struct Parser;

impl Parser {
    /// Reads every declaration in `tokens`, as `spec_parse_tokens` gives them,
    /// going on after each error.
    pub fn parse_tokens(tokens: Vec<Token>) -> (r: ParserResult)
        ensures
            (r.spec_stmts(), r.spec_errors()) == spec_parse_tokens(tokens@),
    {
        let mut stmts: Vec<Stmt> = Vec::new();
        let mut errors: Vec<Error<ParserError>> = Vec::new();
        let mut p: usize = 0;
        assert(crate::stmt::stmts_view(stmts@) =~= Seq::<SStmt>::empty());
        assert(errors@ =~= Seq::<Error<ParserError>>::empty());
        while p < tokens.len()
            invariant
                p <= tokens@.len(),
                spec_parse_tokens(tokens@) == spec_program(tokens@, p as nat, crate::stmt::stmts_view(stmts@), errors@),
            decreases tokens@.len() - p,
        {
            match declaration(&tokens, p) {
                Ok((stmt, q)) => {
                    proof {
                        crate::stmt::lemma_stmts_view_push(stmts@, stmt);
                    }
                    stmts.push(stmt);
                    p = q;
                },
                Err((e, q)) => {
                    errors.push(e);
                    p = synchronize(&tokens, q);
                },
            }
        }
        ParserResult { errors, stmt: stmts }
    }
}

} // verus!

verus! {

// ---------------------------------------------------------------------------
// Operator precedence
// ---------------------------------------------------------------------------

/// The abstract form of a literal token as an operand.
pub open spec fn literal_operand(tok: Token) -> SExpr {
    SExpr::Literal(tok.token_type@, tok.line)
}

/// Whether `tt` is the operator of no level of binary expressions.
pub open spec fn no_level_op(tt: TokenType) -> bool {
    forall|lvl: nat| 1 <= lvl <= 6 ==> !is_level_op(lvl, tt)
}

proof fn lemma_literal_unary(t: Seq<Token>, i: nat)
    requires
        i + 1 < t.len(),
        is_literal(t[i as int].token_type),
        !(t[i + 1int].token_type is LeftParenthesis),
    ensures
        spec_unary(t, i) == Ok::<(SExpr, nat), (Error<ParserError>, nat)>((literal_operand(t[i as int]), i + 1)),
{
    assert(spec_primary(t, i) == Ok::<(SExpr, nat), (Error<ParserError>, nat)>((literal_operand(t[i as int]), i + 1)));
    assert(spec_call_rest(t, i + 1, literal_operand(t[i as int])) == Ok::<(SExpr, nat), (Error<ParserError>, nat)>(
        (literal_operand(t[i as int]), i + 1),
    ));
    assert(fwd(i, i + 1) == i + 1);
    assert(spec_call(t, i) == Ok::<(SExpr, nat), (Error<ParserError>, nat)>((literal_operand(t[i as int]), i + 1)));
    assert(!(t[i as int].token_type is Not || t[i as int].token_type is Minus));
}

proof fn lemma_level_stops(t: Seq<Token>, i: nat, lvl: nat, left: SExpr)
    requires
        i < t.len(),
        1 <= lvl <= 6,
        !is_level_op(lvl, t[i as int].token_type),
    ensures
        spec_level_rest(t, i, lvl, left) == Ok::<(SExpr, nat), (Error<ParserError>, nat)>((left, i)),
{
}

/// A literal followed by a token that is no operator of levels `1..=lvl` is
/// the whole operand of level `lvl`.
proof fn lemma_literal_level(t: Seq<Token>, i: nat, lvl: nat)
    requires
        i + 1 < t.len(),
        1 <= lvl <= 6,
        is_literal(t[i as int].token_type),
        !(t[i + 1int].token_type is LeftParenthesis),
        forall|l: nat| 1 <= l <= lvl ==> !#[trigger] is_level_op(l, t[i + 1int].token_type),
    ensures
        spec_level(t, i, lvl) == Ok::<(SExpr, nat), (Error<ParserError>, nat)>((literal_operand(t[i as int]), i + 1)),
    decreases lvl,
{
    lemma_literal_unary(t, i);
    if lvl > 1 {
        lemma_literal_level(t, i, (lvl - 1) as nat);
    }
    lemma_level_stops(t, i + 1, lvl, literal_operand(t[i as int]));
}

/// A level's operand that is already parsed, followed by a token that is no
/// operator at all, is the whole expression of every level above.
proof fn lemma_levels_stop(t: Seq<Token>, i: nat, e: SExpr, lvl: nat)
    requires
        i < t.len(),
        no_level_op(t[i as int].token_type),
        1 <= lvl <= 6,
    ensures
        spec_level_rest(t, i, lvl, e) == Ok::<(SExpr, nat), (Error<ParserError>, nat)>((e, i)),
{
    assert(!is_level_op(lvl, t[i as int].token_type));
}

/// `*` and `/` bind tighter than `+` and `-`: in `a + b / c` (any of the
/// four operators, with `+` or `-` first and `*` or `/` second, over literal
/// operands, followed by a token that is no operator), the right operand of
/// the `+` or `-` is the whole `b / c`.
pub proof fn law_factor_binds_tighter_on_the_right(t: Seq<Token>, pos: nat)
    requires
        pos + 5 < t.len(),
        is_literal(t[pos as int].token_type),
        is_literal(t[pos + 2int].token_type),
        is_literal(t[pos + 4int].token_type),
        t[pos + 1int].token_type is Plus || t[pos + 1int].token_type is Minus,
        t[pos + 3int].token_type is Slash || t[pos + 3int].token_type is Star,
        no_level_op(t[pos + 5int].token_type),
        !(t[pos + 5int].token_type is LeftParenthesis),
        !(t[pos + 5int].token_type is Equal),
    ensures
        spec_assignment(t, pos) == Ok::<(SExpr, nat), (Error<ParserError>, nat)>(
            (
                SExpr::Binary {
                    left: Box::new(literal_operand(t[pos as int])),
                    operator: t[pos + 1int],
                    right: Box::new(
                        SExpr::Binary {
                            left: Box::new(literal_operand(t[pos + 2int])),
                            operator: t[pos + 3int],
                            right: Box::new(literal_operand(t[pos + 4int])),
                        },
                    ),
                },
                pos + 5,
            ),
        ),
{
    let a = literal_operand(t[pos as int]);
    let b = literal_operand(t[pos + 2int]);
    let c = literal_operand(t[pos + 4int]);
    let bc = SExpr::Binary { left: Box::new(b), operator: t[pos + 3int], right: Box::new(c) };
    let abc = SExpr::Binary { left: Box::new(a), operator: t[pos + 1int], right: Box::new(bc) };
    // `c` alone, and `b / c` at the factor level
    lemma_literal_unary(t, pos + 4);
    lemma_levels_stop(t, pos + 5, bc, 1);
    lemma_literal_unary(t, (pos + 2) as nat);
    assert(spec_level_rest(t, pos + 3, 1, b) == Ok::<(SExpr, nat), (Error<ParserError>, nat)>((bc, pos + 5)));
    assert(spec_level(t, (pos + 2) as nat, 1) == Ok::<(SExpr, nat), (Error<ParserError>, nat)>((bc, pos + 5)));
    // `a` at the factor level, then the term level
    assert(!is_level_op(1, t[pos + 1int].token_type));
    lemma_literal_level(t, pos, 1);
    lemma_levels_stop(t, pos + 5, abc, 2);
    assert(spec_level_rest(t, pos + 1, 2, a) == Ok::<(SExpr, nat), (Error<ParserError>, nat)>((abc, pos + 5)));
    assert(spec_level(t, pos, 2) == Ok::<(SExpr, nat), (Error<ParserError>, nat)>((abc, pos + 5)));
    // the levels above
    lemma_levels_stop(t, pos + 5, abc, 3);
    assert(spec_level(t, pos, 3) == Ok::<(SExpr, nat), (Error<ParserError>, nat)>((abc, pos + 5)));
    lemma_levels_stop(t, pos + 5, abc, 4);
    assert(spec_level(t, pos, 4) == Ok::<(SExpr, nat), (Error<ParserError>, nat)>((abc, pos + 5)));
    lemma_levels_stop(t, pos + 5, abc, 5);
    assert(spec_level(t, pos, 5) == Ok::<(SExpr, nat), (Error<ParserError>, nat)>((abc, pos + 5)));
    lemma_levels_stop(t, pos + 5, abc, 6);
    assert(spec_level(t, pos, 6) == Ok::<(SExpr, nat), (Error<ParserError>, nat)>((abc, pos + 5)));
    assert(spec_lambda(t, pos) == Ok::<(SExpr, nat), (Error<ParserError>, nat)>((abc, pos + 5)));
}


/// `*` and `/` bind tighter than `+` and `-` on the left too: in `a / b + c`
/// (with `*` or `/` first and `+` or `-` second, over literal operands,
/// followed by a token that is no operator), the left operand of the `+` or
/// `-` is the whole `a / b`.
pub proof fn law_factor_binds_tighter_on_the_left(t: Seq<Token>, pos: nat)
    requires
        pos + 5 < t.len(),
        is_literal(t[pos as int].token_type),
        is_literal(t[pos + 2int].token_type),
        is_literal(t[pos + 4int].token_type),
        t[pos + 1int].token_type is Slash || t[pos + 1int].token_type is Star,
        t[pos + 3int].token_type is Plus || t[pos + 3int].token_type is Minus,
        no_level_op(t[pos + 5int].token_type),
        !(t[pos + 5int].token_type is LeftParenthesis),
        !(t[pos + 5int].token_type is Equal),
    ensures
        spec_assignment(t, pos) == Ok::<(SExpr, nat), (Error<ParserError>, nat)>(
            (
                SExpr::Binary {
                    left: Box::new(
                        SExpr::Binary {
                            left: Box::new(literal_operand(t[pos as int])),
                            operator: t[pos + 1int],
                            right: Box::new(literal_operand(t[pos + 2int])),
                        },
                    ),
                    operator: t[pos + 3int],
                    right: Box::new(literal_operand(t[pos + 4int])),
                },
                pos + 5,
            ),
        ),
{
    let a = literal_operand(t[pos as int]);
    let b = literal_operand(t[pos + 2int]);
    let c = literal_operand(t[pos + 4int]);
    let ab = SExpr::Binary { left: Box::new(a), operator: t[pos + 1int], right: Box::new(b) };
    let abc = SExpr::Binary { left: Box::new(ab), operator: t[pos + 3int], right: Box::new(c) };
    lemma_literal_unary(t, pos);
    lemma_literal_unary(t, (pos + 2) as nat);
    assert(!is_level_op(1, t[pos + 3int].token_type));
    lemma_level_stops(t, (pos + 3) as nat, 1, ab);
    assert(spec_level_rest(t, pos + 1, 1, a) == Ok::<(SExpr, nat), (Error<ParserError>, nat)>((ab, pos + 3)));
    assert(spec_level(t, pos, 1) == Ok::<(SExpr, nat), (Error<ParserError>, nat)>((ab, pos + 3)));
    assert(!is_level_op(1, t[pos + 5int].token_type));
    lemma_literal_level(t, (pos + 4) as nat, 1);
    lemma_levels_stop(t, pos + 5, abc, 2);
    assert(spec_level_rest(t, (pos + 3) as nat, 2, ab) == Ok::<(SExpr, nat), (Error<ParserError>, nat)>((abc, pos + 5)));
    assert(spec_level(t, pos, 2) == Ok::<(SExpr, nat), (Error<ParserError>, nat)>((abc, pos + 5)));
    lemma_levels_stop(t, pos + 5, abc, 3);
    assert(spec_level(t, pos, 3) == Ok::<(SExpr, nat), (Error<ParserError>, nat)>((abc, pos + 5)));
    lemma_levels_stop(t, pos + 5, abc, 4);
    assert(spec_level(t, pos, 4) == Ok::<(SExpr, nat), (Error<ParserError>, nat)>((abc, pos + 5)));
    lemma_levels_stop(t, pos + 5, abc, 5);
    assert(spec_level(t, pos, 5) == Ok::<(SExpr, nat), (Error<ParserError>, nat)>((abc, pos + 5)));
    lemma_levels_stop(t, pos + 5, abc, 6);
    assert(spec_level(t, pos, 6) == Ok::<(SExpr, nat), (Error<ParserError>, nat)>((abc, pos + 5)));
    assert(spec_lambda(t, pos) == Ok::<(SExpr, nat), (Error<ParserError>, nat)>((abc, pos + 5)));
}


/// An operand already parsed at level `from`, followed by a token that is no
/// operator of the levels above `from` up to `lvl`, is the whole operand of
/// each of those levels.
proof fn lemma_level_up(t: Seq<Token>, i: nat, e: SExpr, q: nat, from: nat, lvl: nat)
    requires
        1 <= from <= lvl <= 6,
        i <= q < t.len(),
        forall|l: nat| from < l <= lvl ==> !#[trigger] is_level_op(l, t[q as int].token_type),
        spec_level(t, i, from) == Ok::<(SExpr, nat), (Error<ParserError>, nat)>((e, q)),
    ensures
        spec_level(t, i, lvl) == Ok::<(SExpr, nat), (Error<ParserError>, nat)>((e, q)),
    decreases lvl - from,
{
    if lvl > from {
        lemma_level_up(t, i, e, q, from, (lvl - 1) as nat);
        assert(!is_level_op(lvl, t[q as int].token_type));
        lemma_level_stops(t, q, lvl, e);
        assert(fwd(i, q) == q);
    }
}

/// The first operand of level `l`: a unary expression at level 1, else the
/// expression of the level below.
pub open spec fn level_operand(t: Seq<Token>, i: nat, l: nat) -> Parsed<SExpr> {
    if l <= 1 {
        spec_unary(t, i)
    } else {
        spec_level(t, i, (l - 1) as nat)
    }
}

/// A literal followed by a token that is no operator below level `l` is the
/// whole first operand of level `l`.
proof fn lemma_literal_operand(t: Seq<Token>, i: nat, l: nat)
    requires
        i + 1 < t.len(),
        1 <= l <= 6,
        is_literal(t[i as int].token_type),
        !(t[i + 1int].token_type is LeftParenthesis),
        forall|k: nat| 1 <= k < l ==> !#[trigger] is_level_op(k, t[i + 1int].token_type),
    ensures
        level_operand(t, i, l) == Ok::<(SExpr, nat), (Error<ParserError>, nat)>((literal_operand(t[i as int]), i + 1)),
{
    if l <= 1 {
        lemma_literal_unary(t, i);
    } else {
        lemma_literal_level(t, i, (l - 1) as nat);
    }
}

/// Level `l` over `left` (ending at `i`), an operator of level `l` at `i`,
/// and a literal after it followed by a token that is no operator of level
/// `l` or below: the operation of `left` and the literal.
proof fn lemma_one_operation(t: Seq<Token>, i: nat, l: nat, left: SExpr)
    requires
        i + 2 < t.len(),
        1 <= l <= 6,
        is_level_op(l, t[i as int].token_type),
        is_literal(t[i + 1int].token_type),
        !(t[i + 2int].token_type is LeftParenthesis),
        forall|k: nat| 1 <= k <= l ==> !#[trigger] is_level_op(k, t[i + 2int].token_type),
    ensures
        spec_level_rest(t, i, l, left) == Ok::<(SExpr, nat), (Error<ParserError>, nat)>(
            (
                SExpr::Binary { left: Box::new(left), operator: t[i as int], right: Box::new(literal_operand(t[i + 1int])) },
                i + 2,
            ),
        ),
{
    lemma_literal_operand(t, i + 1, l);
    assert(level_operand(t, i + 1, l) == (if l <= 1 { spec_unary(t, i + 1) } else { spec_level(t, i + 1, (l - 1) as nat) }));
    let e = SExpr::Binary { left: Box::new(left), operator: t[i as int], right: Box::new(literal_operand(t[i + 1int])) };
    assert(fwd(i + 1, i + 2) == i + 2);
    lemma_level_stops(t, i + 2, l, e);
}

/// How tightly a binary operator binds, by the grammar's levels: `*` and `/`
/// (FACTOR) 1, `+` and `-` (TERM) 2, `<`, `<=`, `>`, `>=` (COMPARISON) 3,
/// `==` and `!=` (EQUALITY) 4, `and` 5, `or` 6; a lower level binds tighter.
/// Any other token is no binary operator (0).
pub open spec fn grammar_level(tt: TokenType) -> nat {
    if tt is Slash || tt is Star {
        1
    } else if tt is Minus || tt is Plus {
        2
    } else if tt is Lesser || tt is LesserEqual || tt is Greater || tt is GreaterEqual {
        3
    } else if tt is BangEqual || tt is EqualEqual {
        4
    } else if tt is And {
        5
    } else if tt is Or {
        6
    } else {
        0
    }
}

proof fn lemma_grammar_level(tt: TokenType)
    ensures
        forall|l: nat| 1 <= l <= 6 ==> (#[trigger] is_level_op(l, tt) <==> grammar_level(tt) == l),
{
}

/// Operator precedence and associativity over literal operands: in
/// `a op1 b op2 c` (followed by a token that is no operator), where `op2`
/// binds tighter than `op1` by the grammar's levels, `b op2 c` is the right
/// operand of `op1`; otherwise (`op2` as loose as `op1` or looser) `a op1 b`
/// is the left operand of `op2`, so operators of one level group from the
/// left.
pub proof fn law_operator_precedence(t: Seq<Token>, pos: nat)
    requires
        pos + 5 < t.len(),
        is_literal(t[pos as int].token_type),
        is_literal(t[pos + 2int].token_type),
        is_literal(t[pos + 4int].token_type),
        grammar_level(t[pos + 1int].token_type) > 0,
        grammar_level(t[pos + 3int].token_type) > 0,
        grammar_level(t[pos + 5int].token_type) == 0,
        !(t[pos + 5int].token_type is LeftParenthesis),
        !(t[pos + 5int].token_type is Equal),
    ensures
        ({
            let a = literal_operand(t[pos as int]);
            let b = literal_operand(t[pos + 2int]);
            let c = literal_operand(t[pos + 4int]);
            let e = if grammar_level(t[pos + 3int].token_type) < grammar_level(t[pos + 1int].token_type) {
                SExpr::Binary {
                    left: Box::new(a),
                    operator: t[pos + 1int],
                    right: Box::new(SExpr::Binary { left: Box::new(b), operator: t[pos + 3int], right: Box::new(c) }),
                }
            } else {
                SExpr::Binary {
                    left: Box::new(SExpr::Binary { left: Box::new(a), operator: t[pos + 1int], right: Box::new(b) }),
                    operator: t[pos + 3int],
                    right: Box::new(c),
                }
            };
            spec_assignment(t, pos) == Ok::<(SExpr, nat), (Error<ParserError>, nat)>((e, pos + 5))
        }),
{
    let op1 = t[pos + 1int].token_type;
    let op2 = t[pos + 3int].token_type;
    let stop = t[pos + 5int].token_type;
    lemma_grammar_level(op1);
    lemma_grammar_level(op2);
    lemma_grammar_level(stop);
    let l1 = grammar_level(op1);
    let l2 = grammar_level(op2);
    let a = literal_operand(t[pos as int]);
    let b = literal_operand(t[pos + 2int]);
    let c = literal_operand(t[pos + 4int]);
    assert(no_level_op(stop));
    let e;
    if l2 < l1 {
        let bc = SExpr::Binary { left: Box::new(b), operator: t[pos + 3int], right: Box::new(c) };
        e = SExpr::Binary { left: Box::new(a), operator: t[pos + 1int], right: Box::new(bc) };
        // `b op2 c` at level l2, then up to l1 - 1
        lemma_literal_operand(t, (pos + 2) as nat, l2);
        lemma_one_operation(t, (pos + 3) as nat, l2, b);
        assert(fwd((pos + 2) as nat, (pos + 3) as nat) == pos + 3);
        assert(spec_level(t, (pos + 2) as nat, l2) == Ok::<(SExpr, nat), (Error<ParserError>, nat)>((bc, pos + 5)));
        lemma_level_up(t, (pos + 2) as nat, bc, pos + 5, l2, (l1 - 1) as nat);
        // `a op1 (b op2 c)` at level l1
        lemma_literal_operand(t, pos, l1);
        lemma_levels_stop(t, pos + 5, e, l1);
        assert(fwd(pos + 2, pos + 5) == pos + 5);
        assert(spec_level_rest(t, pos + 1, l1, a) == Ok::<(SExpr, nat), (Error<ParserError>, nat)>((e, pos + 5)));
        assert(fwd(pos, pos + 1) == pos + 1);
        assert(spec_level(t, pos, l1) == Ok::<(SExpr, nat), (Error<ParserError>, nat)>((e, pos + 5)));
        lemma_level_up(t, pos, e, pos + 5, l1, 6);
    } else {
        let ab = SExpr::Binary { left: Box::new(a), operator: t[pos + 1int], right: Box::new(b) };
        e = SExpr::Binary { left: Box::new(ab), operator: t[pos + 3int], right: Box::new(c) };
        lemma_literal_operand(t, pos, l1);
        assert(fwd(pos, pos + 1) == pos + 1);
        if l2 == l1 {
            // `a op1 b`, then `op2 c` on the same level
            lemma_literal_operand(t, (pos + 2) as nat, l1);
            assert(fwd(pos + 2, pos + 3) == pos + 3);
            lemma_one_operation(t, (pos + 3) as nat, l1, ab);
            assert(spec_level_rest(t, pos + 1, l1, a) == Ok::<(SExpr, nat), (Error<ParserError>, nat)>((e, pos + 5)));
            assert(spec_level(t, pos, l1) == Ok::<(SExpr, nat), (Error<ParserError>, nat)>((e, pos + 5)));
            lemma_level_up(t, pos, e, pos + 5, l1, 6);
        } else {
            // `a op1 b` at level l1, up to l2 - 1, then `op2 c` at level l2
            lemma_one_operation(t, (pos + 1) as nat, l1, a);
            assert(spec_level(t, pos, l1) == Ok::<(SExpr, nat), (Error<ParserError>, nat)>((ab, pos + 3)));
            lemma_level_up(t, pos, ab, (pos + 3) as nat, l1, (l2 - 1) as nat);
            lemma_one_operation(t, (pos + 3) as nat, l2, ab);
            assert(spec_level(t, pos, l2) == Ok::<(SExpr, nat), (Error<ParserError>, nat)>((e, pos + 5)));
            lemma_level_up(t, pos, e, pos + 5, l2, 6);
        }
    }
    assert(spec_lambda(t, pos) == Ok::<(SExpr, nat), (Error<ParserError>, nat)>((e, pos + 5)));
}

} // verus!
