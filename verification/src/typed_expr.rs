use vstd::prelude::*;

use crate::errors::{MismatchType, SMismatchType, STypeError, TypeError};
use crate::expr::{Expr, SExpr};
use crate::tokens::{STokenType, Token, TokenType};
use crate::types::Types;

verus! {

/// A literal value with its type; a number is kept as the text it was
/// written with.
#[derive(Debug)]
pub enum TValues {
    Bool(bool),
    Number(String),
    String(String),
    Nil,
}

/// A literal value and where it was written.
#[derive(Debug)]
pub struct TypedValue {
    pub line: (usize, usize),
    pub t_val: TValues,
}

/// An operator expression in which every node carries the type of its value.
#[derive(Debug)]
pub enum TypedExpr {
    Binary { left: Box<TypedExpr>, operator: Token, right: Box<TypedExpr>, t: Types },
    Unary { operator: Token, right: Box<TypedExpr>, t: Types },
    Literal(TypedValue),
    Grouping { inner: Box<TypedExpr>, t: Types },
}

impl TValues {
    pub open spec fn spec_as_type(self) -> Types {
        match self {
            TValues::Bool(_) => Types::Bool,
            TValues::Number(_) => Types::Number,
            TValues::String(_) => Types::String,
            TValues::Nil => Types::Nil,
        }
    }

    /// The type of the value.
    pub fn as_type(&self) -> (r: Types)
        ensures
            r == self.spec_as_type(),
    {
        match self {
            TValues::Bool(_) => Types::Bool,
            TValues::Number(_) => Types::Number,
            TValues::String(_) => Types::String,
            TValues::Nil => Types::Nil,
        }
    }

    /// The value that a literal token stands for; other tokens stand for none.
    pub open spec fn spec_from_literal(tt: TokenType) -> Option<TValues> {
        match tt {
            TokenType::True => Some(TValues::Bool(true)),
            TokenType::False => Some(TValues::Bool(false)),
            TokenType::Number(s) => Some(TValues::Number(s)),
            TokenType::String(s) => Some(TValues::String(s)),
            TokenType::Nil => Some(TValues::Nil),
            _ => None,
        }
    }

    pub fn from_literal(tt: TokenType) -> (r: Option<TValues>)
        ensures
            r == Self::spec_from_literal(tt),
    {
        match tt {
            TokenType::True => Some(TValues::Bool(true)),
            TokenType::False => Some(TValues::Bool(false)),
            TokenType::Number(s) => Some(TValues::Number(s)),
            TokenType::String(s) => Some(TValues::String(s)),
            TokenType::Nil => Some(TValues::Nil),
            _ => None,
        }
    }

    /// The literal token type that writes the value.
    pub open spec fn spec_token_type(self) -> TokenType {
        match self {
            TValues::Bool(b) => if b {
                TokenType::True
            } else {
                TokenType::False
            },
            TValues::Number(s) => TokenType::Number(s),
            TValues::String(s) => TokenType::String(s),
            TValues::Nil => TokenType::Nil,
        }
    }
}

/// The type of the value a literal token stands for; other tokens stand for
/// none.
pub open spec fn literal_type(tt: STokenType) -> Option<Types> {
    match tt {
        STokenType::True | STokenType::False => Some(Types::Bool),
        STokenType::Number(_) => Some(Types::Number),
        STokenType::String(_) => Some(Types::String),
        STokenType::Nil => Some(Types::Nil),
        _ => None,
    }
}

pub open spec fn spec_get_type(te: TypedExpr) -> Types {
    match te {
        TypedExpr::Literal(v) => v.t_val.spec_as_type(),
        TypedExpr::Binary { t, .. } => t,
        TypedExpr::Unary { t, .. } => t,
        TypedExpr::Grouping { t, .. } => t,
    }
}

/// The expression that a typed expression annotates.
pub open spec fn erase(te: TypedExpr) -> SExpr
    decreases te,
{
    match te {
        TypedExpr::Literal(v) => SExpr::Literal(v.t_val.spec_token_type()@, v.line),
        TypedExpr::Grouping { inner, .. } => SExpr::Grouping(Box::new(erase(*inner))),
        TypedExpr::Unary { operator, right, .. } => SExpr::Unary { operator, right: Box::new(erase(*right)) },
        TypedExpr::Binary { left, operator, right, .. } => SExpr::Binary {
            left: Box::new(erase(*left)),
            operator,
            right: Box::new(erase(*right)),
        },
    }
}

pub open spec fn single(expected: Seq<Types>, found: Types) -> STypeError {
    STypeError::Mismatch { expected: SMismatchType::Single(expected), found: SMismatchType::Single(seq![found]) }
}

pub open spec fn pairs(expected: Seq<(Types, Types)>, l: Types, r: Types) -> STypeError {
    STypeError::Mismatch { expected: SMismatchType::Multiple(expected), found: SMismatchType::Multiple(seq![(l, r)]) }
}

/// The type of a unary operation on a value of type `r`: negation wants a
/// number, `not` gives a boolean. Other operators have no rule.
pub open spec fn unary_rule(op: Token, r: Types) -> Option<Result<Types, STypeError>> {
    match op.token_type {
        TokenType::Minus => if r == Types::Number {
            Some(Ok(Types::Number))
        } else {
            Some(Err(single(seq![Types::Number], r)))
        },
        TokenType::Not => Some(Ok(Types::Bool)),
        _ => None,
    }
}

/// The type of a binary operation on values of types `l` and `r`:
/// comparisons give a boolean; `-`, `/` and `*` want two numbers; `+` wants
/// two numbers or two strings. Other operators have no rule.
pub open spec fn binary_rule(op: Token, l: Types, r: Types) -> Option<Result<Types, STypeError>> {
    match op.token_type {
        TokenType::Lesser | TokenType::LesserEqual | TokenType::Greater | TokenType::GreaterEqual
        | TokenType::EqualEqual | TokenType::BangEqual => Some(Ok(Types::Bool)),
        TokenType::Minus | TokenType::Slash | TokenType::Star => if l == Types::Number && r == Types::Number {
            Some(Ok(Types::Number))
        } else {
            Some(Err(pairs(seq![(Types::Number, Types::Number)], l, r)))
        },
        TokenType::Plus => if l == Types::Number && r == Types::Number {
            Some(Ok(Types::Number))
        } else if l == Types::String && r == Types::String {
            Some(Ok(Types::String))
        } else {
            Some(Err(pairs(seq![(Types::Number, Types::Number), (Types::String, Types::String)], l, r)))
        },
        _ => None,
    }
}

/// The type of an expression, or the first mismatch in it (left before
/// right, operands before their operator); `None` where the checker has no
/// rule (a token that is no literal, an operator it does not know, or a kind
/// of expression other than literals, groupings and operations).
pub open spec fn check(e: SExpr) -> Option<Result<Types, STypeError>>
    decreases e,
{
    match e {
        SExpr::Literal(tt, _) => match literal_type(tt) {
            Some(t) => Some(Ok(t)),
            None => None,
        },
        SExpr::Grouping(inner) => check(*inner),
        SExpr::Unary { operator, right } => match check(*right) {
            Some(Ok(t)) => unary_rule(operator, t),
            other => other,
        },
        SExpr::Binary { left, operator, right } => match check(*left) {
            Some(Ok(tl)) => match check(*right) {
                Some(Ok(tr)) => binary_rule(operator, tl, tr),
                other => other,
            },
            other => other,
        },
        _ => None,
    }
}

/// A mismatch inside an operand is the verdict on the whole expression: a
/// grouping, a unary operation, or a binary operation whose left operand has
/// a mismatch reports that same mismatch, whatever the operator and the
/// right operand are.
pub proof fn law_operand_mismatch_is_reported(x: SExpr, y: SExpr, op: Token, err: STypeError)
    requires
        check(x) == Some(Err::<Types, STypeError>(err)),
    ensures
        check(SExpr::Grouping(Box::new(x))) == Some(Err::<Types, STypeError>(err)),
        check(SExpr::Unary { operator: op, right: Box::new(x) }) == Some(Err::<Types, STypeError>(err)),
        check(SExpr::Binary { left: Box::new(x), operator: op, right: Box::new(y) }) == Some(
            Err::<Types, STypeError>(err),
        ),
{
}

/// A well-typed operand of type `t`: grouped, it keeps `t`; under `not` it
/// gives a boolean; negated, it gives a number where `t` is a number and a
/// mismatch that wants a number otherwise.
pub proof fn law_unary_types(x: SExpr, t: Types, op: Token)
    requires
        check(x) == Some(Ok::<Types, STypeError>(t)),
    ensures
        check(SExpr::Grouping(Box::new(x))) == Some(Ok::<Types, STypeError>(t)),
        op.token_type is Not ==> check(SExpr::Unary { operator: op, right: Box::new(x) }) == Some(
            Ok::<Types, STypeError>(Types::Bool),
        ),
        op.token_type is Minus ==> check(SExpr::Unary { operator: op, right: Box::new(x) }) == if t
            == Types::Number {
            Some(Ok::<Types, STypeError>(Types::Number))
        } else {
            Some(Err::<Types, STypeError>(single(seq![Types::Number], t)))
        },
{
}

/// The type of a binary operation on two well-typed operands of types `tl`
/// and `tr`: a comparison or an equality is a boolean whatever the operands;
/// `-`, `/` and `*` give a number exactly when both operands are numbers and
/// otherwise a mismatch that wants two numbers; `+` gives a number on two
/// numbers, a string on two strings, and otherwise a mismatch that wants one
/// of those pairs. No other operator has a rule, so only comparisons and
/// equalities are booleans.
pub proof fn law_binary_types(x: SExpr, y: SExpr, tl: Types, tr: Types, op: Token)
    requires
        check(x) == Some(Ok::<Types, STypeError>(tl)),
        check(y) == Some(Ok::<Types, STypeError>(tr)),
    ensures
        ({
            let c = check(SExpr::Binary { left: Box::new(x), operator: op, right: Box::new(y) });
            let tt = op.token_type;
            let numbers = tl == Types::Number && tr == Types::Number;
            &&& (tt is Lesser || tt is LesserEqual || tt is Greater || tt is GreaterEqual || tt is EqualEqual
                || tt is BangEqual) ==> c == Some(Ok::<Types, STypeError>(Types::Bool))
            &&& (tt is Minus || tt is Slash || tt is Star) ==> c == if numbers {
                Some(Ok::<Types, STypeError>(Types::Number))
            } else {
                Some(
                    Err::<Types, STypeError>(
                        STypeError::Mismatch {
                            expected: SMismatchType::Multiple(seq![(Types::Number, Types::Number)]),
                            found: SMismatchType::Multiple(seq![(tl, tr)]),
                        },
                    ),
                )
            }
            &&& tt is Plus ==> c == if numbers {
                Some(Ok::<Types, STypeError>(Types::Number))
            } else if tl == Types::String && tr == Types::String {
                Some(Ok::<Types, STypeError>(Types::String))
            } else {
                Some(
                    Err::<Types, STypeError>(
                        STypeError::Mismatch {
                            expected: SMismatchType::Multiple(
                                seq![(Types::Number, Types::Number), (Types::String, Types::String)],
                            ),
                            found: SMismatchType::Multiple(seq![(tl, tr)]),
                        },
                    ),
                )
            }
            &&& c == Some(Ok::<Types, STypeError>(Types::Bool)) ==> (tt is Lesser || tt is LesserEqual
                || tt is Greater || tt is GreaterEqual || tt is EqualEqual || tt is BangEqual)
        }),
{
}

/// Every node of `te` carries the type that the checker gives the expression
/// under it.
pub open spec fn well_annotated(te: TypedExpr) -> bool
    decreases te,
{
    &&& check(erase(te)) == Some(Ok::<Types, STypeError>(spec_get_type(te)))
    &&& match te {
        TypedExpr::Literal(_) => true,
        TypedExpr::Grouping { inner, .. } => well_annotated(*inner),
        TypedExpr::Unary { right, .. } => well_annotated(*right),
        TypedExpr::Binary { left, right, .. } => well_annotated(*left) && well_annotated(*right),
    }
}

/// Whether `r` is what checking `e`, whose checker's verdict is `c`, gives:
/// the annotated expression with the type the checker found, or the mismatch
/// it found.
pub open spec fn typed_as(r: Result<TypedExpr, TypeError>, c: Option<Result<Types, STypeError>>, e: SExpr) -> bool {
    match (c, r) {
        (Some(Ok(t)), Ok(te)) => erase(te) == e && well_annotated(te) && spec_get_type(te) == t,
        (Some(Err(e1)), Err(e2)) => e2@ == e1,
        _ => false,
    }
}

fn single_error(expected: Types, found: Types) -> (r: TypeError)
    ensures
        r@ == single(seq![expected], found),
{
    let mut e: Vec<Types> = Vec::new();
    e.push(expected);
    let mut f: Vec<Types> = Vec::new();
    f.push(found);
    assert(e@ =~= seq![expected]);
    assert(f@ =~= seq![found]);
    TypeError::Mismatch { expected: MismatchType::Single(e), found: MismatchType::Single(f) }
}

fn pairs_error(expected: Vec<(Types, Types)>, l: Types, r: Types) -> (res: TypeError)
    ensures
        res@ == pairs(expected@, l, r),
{
    let mut f: Vec<(Types, Types)> = Vec::new();
    f.push((l, r));
    assert(f@ =~= seq![(l, r)]);
    TypeError::Mismatch { expected: MismatchType::Multiple(expected), found: MismatchType::Multiple(f) }
}

impl TypedExpr {
    /// The type of the value of the expression.
    pub fn get_type(&self) -> (r: Types)
        ensures
            r == spec_get_type(*self),
    {
        match self {
            TypedExpr::Literal(v) => v.t_val.as_type(),
            TypedExpr::Binary { t, .. } => *t,
            TypedExpr::Unary { t, .. } => *t,
            TypedExpr::Grouping { t, .. } => *t,
        }
    }

    /// Checks the types of an operator expression and annotates each of its
    /// nodes with its type; refuses the first mismatch.
    pub fn try_from(expr: Expr) -> (r: Result<TypedExpr, TypeError>)
        requires
            check(expr@) is Some,
        ensures
            typed_as(r, check(expr@), expr@),
    {
        match TypedExpr::type_check(expr) {
            Some(r) => r,
            None => {
                proof {
                    assert(false);
                }
                unreached()
            },
        }
    }

    /// Checks the types of an expression as `try_from` does; `None` where the
    /// checker has no rule for it.
    pub fn type_check(expr: Expr) -> (r: Option<Result<TypedExpr, TypeError>>)
        ensures
            match r {
                Some(res) => typed_as(res, check(expr@), expr@),
                None => check(expr@) is None,
            },
        decreases expr,
    {
        match expr {
            Expr::Literal(token) => {
                let line = token.line;
                match TValues::from_literal(token.token_type) {
                    Some(t_val) => Some(Ok(TypedExpr::Literal(TypedValue { line, t_val }))),
                    None => None,
                }
            },
            Expr::Grouping(inner) => {
                match TypedExpr::type_check(*inner) {
                    Some(Ok(i)) => {
                        let t = i.get_type();
                        Some(Ok(TypedExpr::Grouping { inner: Box::new(i), t }))
                    },
                    Some(Err(e)) => Some(Err(e)),
                    None => None,
                }
            },
            Expr::Unary { operator, right } => {
                let r = match TypedExpr::type_check(*right) {
                    Some(Ok(r)) => r,
                    Some(Err(e)) => {
                        return Some(Err(e));
                    },
                    None => {
                        return None;
                    },
                };
                let rt = r.get_type();
                let t = match &operator.token_type {
                    TokenType::Minus => {
                        if rt == Types::Number {
                            Types::Number
                        } else {
                            return Some(Err(single_error(Types::Number, rt)));
                        }
                    },
                    TokenType::Not => Types::Bool,
                    _ => {
                        return None;
                    },
                };
                Some(Ok(TypedExpr::Unary { operator, right: Box::new(r), t }))
            },
            Expr::Binary { left, operator, right } => {
                let l = match TypedExpr::type_check(*left) {
                    Some(Ok(l)) => l,
                    Some(Err(e)) => {
                        return Some(Err(e));
                    },
                    None => {
                        return None;
                    },
                };
                let r = match TypedExpr::type_check(*right) {
                    Some(Ok(r)) => r,
                    Some(Err(e)) => {
                        return Some(Err(e));
                    },
                    None => {
                        return None;
                    },
                };
                let lt = l.get_type();
                let rt = r.get_type();
                let t = match &operator.token_type {
                    TokenType::Lesser
                    | TokenType::LesserEqual
                    | TokenType::Greater
                    | TokenType::GreaterEqual
                    | TokenType::EqualEqual
                    | TokenType::BangEqual => Types::Bool,
                    TokenType::Minus | TokenType::Slash | TokenType::Star => {
                        if !(lt == Types::Number && rt == Types::Number) {
                            let mut expected: Vec<(Types, Types)> = Vec::new();
                            expected.push((Types::Number, Types::Number));
                            assert(expected@ =~= seq![(Types::Number, Types::Number)]);
                            return Some(Err(pairs_error(expected, lt, rt)));
                        }
                        Types::Number
                    },
                    TokenType::Plus => {
                        if lt == Types::Number && rt == Types::Number {
                            Types::Number
                        } else if lt == Types::String && rt == Types::String {
                            Types::String
                        } else {
                            let mut expected: Vec<(Types, Types)> = Vec::new();
                            expected.push((Types::Number, Types::Number));
                            expected.push((Types::String, Types::String));
                            assert(expected@ =~= seq![(Types::Number, Types::Number), (Types::String, Types::String)]);
                            return Some(Err(pairs_error(expected, lt, rt)));
                        }
                    },
                    _ => {
                        return None;
                    },
                };
                Some(Ok(TypedExpr::Binary { left: Box::new(l), operator, right: Box::new(r), t }))
            },
            _ => None,
        }
    }
}

} // verus!
