use vstd::prelude::*;

use crate::enviroment::{lemma_ancestor_valid, lemma_holder_lookup, ScopeTree};
use crate::expr::{exprs_view, lemma_exprs_view_index, lemma_exprs_view_len, Expr, SExpr};
use crate::interpreter::{call_accepts, law_read_after_assign, spec_assign, spec_call_accepts, spec_look_up, Interpreter};
use crate::resolver::ident;
use crate::tokens::{STokenType, Token, TokenType};
use crate::types::Types;

verus! {

// ---------------------------------------------------------------------------
// The model
// ---------------------------------------------------------------------------
//
// An expression is evaluated by a machine that the host drives, in one scope.
// The machine walks the expression and decides what is evaluated, in which
// order, and what comes of each value: which operand of `or` and `and` is the
// result, which branch of a conditional runs, where an assignment stores,
// which operands an operator accepts, and whether a call gets the number of
// arguments its function takes. The host does what needs the values
// themselves: it gives a literal's value, reads a variable, computes an
// operator on two accepted operands, makes a boolean, calls a function, and
// makes a lambda; it hands each value back with its shape.

/// What the host tells of a value: whether it counts as true, its type (none
/// for a function), and, for a function, how many arguments it takes and
/// whether it takes fewer too.
#[derive(Clone, Copy, Debug)]
pub struct Shape {
    pub truthy: bool,
    pub ty: Option<Types>,
    pub arity: Option<(usize, bool)>,
}

/// What stops the evaluation of an expression.
#[derive(PartialEq, Eq, Structural, Clone, Copy, Debug)]
pub enum EvalError {
    /// An assignment to a variable that no scope holds.
    UndefinedVariable,
    /// An assignment to something that is not a variable.
    InvalidAssignmentTarget,
    /// A variable named by a token that is no identifier.
    NotAVariable,
    /// A call of an exposed function, which nothing evaluates.
    ExposedFunction,
    /// An ordering comparison of values of different types.
    DifferentTypes,
    /// `+` on operands that are not two numbers or two strings.
    InvalidAddition,
    /// `-` on operands that are not two numbers.
    InvalidSubtraction,
    /// `*` on operands that are not two numbers.
    InvalidMultiplication,
    /// `/` on operands that are not two numbers.
    InvalidDivision,
    /// Negation of a value that is not a number.
    InvalidNegation,
    /// An operator that has no rule in its place.
    InvalidOperator,
    /// A call of a value that is not a function.
    NotCallable,
    /// A call with a number of arguments its function does not take.
    WrongArity,
}

/// What the machine waits for the value of, innermost last: the value to
/// store in a variable; the value for an assignment whose target is no
/// variable; the left operand of an operator, with the right one still to
/// come; the right operand, with the left one's value and shape; the operand
/// of a unary operator; the condition of a conditional, with its branches;
/// the function of a call, with its arguments; or an argument, with the
/// function, the arguments so far and those still to come.
pub enum SWait<V> {
    Assign(Seq<char>),
    AssignInvalid,
    Left(Token, SExpr),
    Right(Token, V, Shape),
    Unary(Token),
    Cond(SExpr, SExpr),
    Callee(Seq<SExpr>),
    Args(V, Shape, Seq<V>, Seq<SExpr>),
}

/// The scope the expression is evaluated in and what the machine waits for.
pub struct SEvalState<V> {
    pub env: usize,
    pub waits: Seq<SWait<V>>,
}

/// The abstract form of what a step asks of the host: the value of a literal
/// token; the value of a variable read in a scope; an operator computed on
/// two operands it accepts; the negation of a number; a boolean; a call of a
/// function on arguments it takes; a lambda closing over a scope; or nothing
/// more, the evaluation having given a value or stopped on an error.
pub enum SEvalAction<V> {
    Literal(STokenType, (usize, usize)),
    Read(usize, Seq<char>),
    Binary(Token, V, V),
    Negate(V),
    Bool(bool),
    Call(V, Seq<V>),
    Lambda(usize, Seq<Token>, SExpr),
    Done(V),
    Fail(EvalError),
}

/// Starting to evaluate `e` in scope `env` with `waits` waiting: the machine
/// goes down the expression to the first thing that needs the host,
/// remembering what waits for each value on the way.
pub open spec fn spec_start<V>(env: usize, e: SExpr, waits: Seq<SWait<V>>) -> (Seq<SWait<V>>, SEvalAction<V>)
    decreases e,
{
    match e {
        SExpr::Literal(tt, pos) => (waits, SEvalAction::Literal(tt, pos)),
        SExpr::Variable(t) => match ident(t) {
            Some(n) => (waits, SEvalAction::Read(env, n)),
            None => (Seq::empty(), SEvalAction::Fail(EvalError::NotAVariable)),
        },
        SExpr::ExposedFn(_) => (Seq::empty(), SEvalAction::Fail(EvalError::ExposedFunction)),
        SExpr::Grouping(inner) => spec_start(env, *inner, waits),
        SExpr::Assignment { target, expr } => match *target {
            SExpr::Variable(t) => match ident(t) {
                Some(n) => spec_start(env, *expr, waits.push(SWait::Assign(n))),
                None => spec_start(env, *expr, waits.push(SWait::AssignInvalid)),
            },
            _ => spec_start(env, *expr, waits.push(SWait::AssignInvalid)),
        },
        SExpr::Binary { left, operator, right } => spec_start(env, *left, waits.push(SWait::Left(operator, *right))),
        SExpr::Unary { operator, right } => spec_start(env, *right, waits.push(SWait::Unary(operator))),
        SExpr::Conditional { condition, true_branch, false_branch } => spec_start(
            env,
            *condition,
            waits.push(SWait::Cond(*true_branch, *false_branch)),
        ),
        SExpr::Call { callee, args, .. } => spec_start(env, *callee, waits.push(SWait::Callee(args))),
        SExpr::Lambda { params, body } => (waits, SEvalAction::Lambda(env, params, *body)),
    }
}

/// Whether a value of shape `s` is a number.
pub open spec fn is_number(s: Shape) -> bool {
    s.ty == Some(Types::Number)
}

/// What a binary operator other than `or` and `and` asks for, the operands
/// being `l` and `r`: `==` and `!=` compare values of one type and find
/// values of different types (or two functions) unequal; an ordering
/// comparison wants operands of one type; `+` wants two numbers or two
/// strings; `-`, `*` and `/` want two numbers.
pub open spec fn binary_decision<V>(op: Token, l: V, ls: Shape, r: V, rs: Shape) -> SEvalAction<V> {
    let same = ls.ty is Some && ls.ty == rs.ty;
    match op.token_type {
        TokenType::EqualEqual => if same {
            SEvalAction::Binary(op, l, r)
        } else {
            SEvalAction::Bool(false)
        },
        TokenType::BangEqual => if same {
            SEvalAction::Binary(op, l, r)
        } else {
            SEvalAction::Bool(true)
        },
        TokenType::Lesser | TokenType::LesserEqual | TokenType::Greater | TokenType::GreaterEqual => if ls.ty
            == rs.ty {
            SEvalAction::Binary(op, l, r)
        } else {
            SEvalAction::Fail(EvalError::DifferentTypes)
        },
        TokenType::Plus => if (is_number(ls) && is_number(rs)) || (ls.ty == Some(Types::String) && rs.ty == Some(
            Types::String,
        )) {
            SEvalAction::Binary(op, l, r)
        } else {
            SEvalAction::Fail(EvalError::InvalidAddition)
        },
        TokenType::Minus => if is_number(ls) && is_number(rs) {
            SEvalAction::Binary(op, l, r)
        } else {
            SEvalAction::Fail(EvalError::InvalidSubtraction)
        },
        TokenType::Star => if is_number(ls) && is_number(rs) {
            SEvalAction::Binary(op, l, r)
        } else {
            SEvalAction::Fail(EvalError::InvalidMultiplication)
        },
        TokenType::Slash => if is_number(ls) && is_number(rs) {
            SEvalAction::Binary(op, l, r)
        } else {
            SEvalAction::Fail(EvalError::InvalidDivision)
        },
        _ => SEvalAction::Fail(EvalError::InvalidOperator),
    }
}

/// What a unary operator asks for: negation wants a number; `not` gives the
/// boolean opposite to the operand's truthiness.
pub open spec fn unary_decision<V>(op: Token, v: V, s: Shape) -> SEvalAction<V> {
    match op.token_type {
        TokenType::Minus => if is_number(s) {
            SEvalAction::Negate(v)
        } else {
            SEvalAction::Fail(EvalError::InvalidNegation)
        },
        TokenType::Not => SEvalAction::Bool(!s.truthy),
        _ => SEvalAction::Fail(EvalError::InvalidOperator),
    }
}

/// What a call asks for once its function `f` and all its arguments are
/// known: a value that is no function cannot be called, and a function is
/// called only with a number of arguments it takes.
pub open spec fn call_decision<V>(f: V, fs: Shape, args: Seq<V>) -> SEvalAction<V> {
    match fs.arity {
        None => SEvalAction::Fail(EvalError::NotCallable),
        Some((n, variable)) => if spec_call_accepts(n, variable, args.len() as usize) && args.len() <= usize::MAX {
            SEvalAction::Call(f, args)
        } else {
            SEvalAction::Fail(EvalError::WrongArity)
        },
    }
}

/// What the machine is after it stopped, with nothing waiting.
pub open spec fn stopped<V>(env: usize, a: SEvalAction<V>) -> (SEvalState<V>, SEvalAction<V>) {
    (SEvalState { env, waits: Seq::empty() }, a)
}

/// The state and request after an operator, a call or the like asked the
/// host, with `rest` waiting for the answer; an error stops the machine.
pub open spec fn ask<V>(env: usize, rest: Seq<SWait<V>>, a: SEvalAction<V>) -> (SEvalState<V>, SEvalAction<V>) {
    match a {
        SEvalAction::Fail(_) => stopped(env, a),
        _ => (SEvalState { env, waits: rest }, a),
    }
}

/// The machine going on from starting `e` with `waits` waiting.
pub open spec fn go<V>(env: usize, e: SExpr, waits: Seq<SWait<V>>) -> (SEvalState<V>, SEvalAction<V>) {
    let (ws, a) = spec_start(env, e, waits);
    (SEvalState { env, waits: ws }, a)
}

/// The value `v` of shape `s` handed to what waits innermost:
/// - with nothing waiting, it is the value of the whole expression;
/// - an assignment stores it where `spec_assign` says (the variable being
///   undefined stops the machine) and then reads the variable back, its
///   value being the assignment's value;
/// - `or` gives a true left operand as its value and otherwise the value of
///   its right operand; `and` gives a false left operand as its value and
///   otherwise the value of its right operand; any other operator evaluates
///   its right operand next, then asks as `binary_decision` says;
/// - a unary operator asks as `unary_decision` says;
/// - a conditional evaluates the branch the condition picks, and only it;
/// - a call evaluates its arguments left to right after its function, then
///   asks as `call_decision` says.
pub open spec fn spec_deliver<V>(tree: ScopeTree<V>, locals: Map<Seq<char>, usize>, st: SEvalState<V>, v: V, s: Shape) -> (
    ScopeTree<V>,
    SEvalState<V>,
    SEvalAction<V>,
)
    decreases st.waits.len(),
{
    let env = st.env;
    if st.waits.len() == 0 {
        (tree, SEvalState { env, waits: Seq::empty() }, SEvalAction::Done(v))
    } else {
        let rest = st.waits.drop_last();
        match st.waits.last() {
            SWait::Assign(n) => match spec_assign(tree, locals, env as int, n, v) {
                Some(t) => (t, SEvalState { env, waits: rest }, SEvalAction::Read(env, n)),
                None => {
                    let (s1, a) = stopped(env, SEvalAction::Fail(EvalError::UndefinedVariable));
                    (tree, s1, a)
                },
            },
            SWait::AssignInvalid => {
                let (s1, a) = stopped(env, SEvalAction::Fail(EvalError::InvalidAssignmentTarget));
                (tree, s1, a)
            },
            SWait::Left(op, right) => if op.token_type is Or {
                if s.truthy {
                    spec_deliver(tree, locals, SEvalState { env, waits: rest }, v, s)
                } else {
                    let (s1, a) = go(env, right, rest);
                    (tree, s1, a)
                }
            } else if op.token_type is And {
                if s.truthy {
                    let (s1, a) = go(env, right, rest);
                    (tree, s1, a)
                } else {
                    spec_deliver(tree, locals, SEvalState { env, waits: rest }, v, s)
                }
            } else {
                let (s1, a) = go(env, right, rest.push(SWait::Right(op, v, s)));
                (tree, s1, a)
            },
            SWait::Right(op, l, ls) => {
                let (s1, a) = ask(env, rest, binary_decision(op, l, ls, v, s));
                (tree, s1, a)
            },
            SWait::Unary(op) => {
                let (s1, a) = ask(env, rest, unary_decision(op, v, s));
                (tree, s1, a)
            },
            SWait::Cond(t, f) => {
                let (s1, a) = go(env, if s.truthy { t } else { f }, rest);
                (tree, s1, a)
            },
            SWait::Callee(args) => if args.len() == 0 {
                let (s1, a) = ask(env, rest, call_decision(v, s, Seq::empty()));
                (tree, s1, a)
            } else {
                let (s1, a) = go(env, args[0], rest.push(SWait::Args(v, s, Seq::empty(), args.drop_first())));
                (tree, s1, a)
            },
            SWait::Args(f, fs, done, todo) => if todo.len() == 0 {
                let (s1, a) = ask(env, rest, call_decision(f, fs, done.push(v)));
                (tree, s1, a)
            } else {
                let (s1, a) = go(env, todo[0], rest.push(SWait::Args(f, fs, done.push(v), todo.drop_first())));
                (tree, s1, a)
            },
        }
    }
}


// ---------------------------------------------------------------------------
// The machine
// ---------------------------------------------------------------------------

/// What the machine waits for the value of; see [`SWait`].
#[derive(Debug)]
pub enum Wait<V> {
    Assign(String),
    AssignInvalid,
    Left(Token, Expr),
    Right(Token, V, Shape),
    Unary(Token),
    Cond(Expr, Expr),
    Callee(Vec<Expr>),
    Args(V, Shape, Vec<V>, Vec<Expr>),
}

/// What a step asks of the host; see [`SEvalAction`].
#[derive(Debug)]
pub enum EvalAction<V> {
    Literal(Token),
    Read(usize, String),
    Binary(Token, V, V),
    Negate(V),
    Bool(bool),
    Call(V, Vec<V>),
    Lambda(usize, Vec<Token>, Expr),
    Done(V),
    Fail(EvalError),
}

/// The state of the evaluation of an expression.
#[derive(Debug)]
pub struct EvalState<V> {
    env: usize,
    waits: Vec<Wait<V>>,
}

pub open spec fn wait_view<V>(w: Wait<V>) -> SWait<V> {
    match w {
        Wait::Assign(n) => SWait::Assign(n@),
        Wait::AssignInvalid => SWait::AssignInvalid,
        Wait::Left(op, e) => SWait::Left(op, e@),
        Wait::Right(op, v, s) => SWait::Right(op, v, s),
        Wait::Unary(op) => SWait::Unary(op),
        Wait::Cond(t, f) => SWait::Cond(t@, f@),
        Wait::Callee(args) => SWait::Callee(exprs_view(args@)),
        Wait::Args(f, s, done, todo) => SWait::Args(f, s, done@, exprs_view(todo@)),
    }
}

pub open spec fn waits_view<V>(ws: Seq<Wait<V>>) -> Seq<SWait<V>> {
    ws.map_values(|w: Wait<V>| wait_view(w))
}

impl<V> View for EvalAction<V> {
    type V = SEvalAction<V>;

    open spec fn view(&self) -> SEvalAction<V> {
        match self {
            EvalAction::Literal(t) => SEvalAction::Literal(t.token_type@, t.line),
            EvalAction::Read(env, n) => SEvalAction::Read(*env, n@),
            EvalAction::Binary(op, l, r) => SEvalAction::Binary(*op, *l, *r),
            EvalAction::Negate(v) => SEvalAction::Negate(*v),
            EvalAction::Bool(b) => SEvalAction::Bool(*b),
            EvalAction::Call(f, args) => SEvalAction::Call(*f, args@),
            EvalAction::Lambda(env, ps, b) => SEvalAction::Lambda(*env, ps@, b@),
            EvalAction::Done(v) => SEvalAction::Done(*v),
            EvalAction::Fail(e) => SEvalAction::Fail(*e),
        }
    }
}

impl<V> View for EvalState<V> {
    type V = SEvalState<V>;

    closed spec fn view(&self) -> SEvalState<V> {
        SEvalState { env: self.env, waits: waits_view(self.waits@) }
    }
}

proof fn lemma_waits_view_push<V>(ws: Seq<Wait<V>>, w: Wait<V>)
    ensures
        waits_view(ws.push(w)) == waits_view(ws).push(wait_view(w)),
{
    assert(waits_view(ws.push(w)) =~= waits_view(ws).push(wait_view(w)));
}

proof fn lemma_waits_view_drop_last<V>(ws: Seq<Wait<V>>)
    requires
        ws.len() > 0,
    ensures
        waits_view(ws.drop_last()) == waits_view(ws).drop_last(),
        waits_view(ws).last() == wait_view(ws.last()),
{
    assert(waits_view(ws.drop_last()) =~= waits_view(ws).drop_last());
}

proof fn lemma_exprs_view_remove_first(s: Seq<Expr>)
    requires
        s.len() > 0,
    ensures
        exprs_view(s).len() == s.len(),
        exprs_view(s)[0] == s[0]@,
        exprs_view(s.remove(0)) == exprs_view(s).drop_first(),
{
    lemma_exprs_view_len(s);
    lemma_exprs_view_len(s.remove(0));
    lemma_exprs_view_index(s, 0);
    assert forall|i: int| 0 <= i < s.len() - 1 implies exprs_view(s.remove(0))[i] == exprs_view(s).drop_first()[i] by {
        lemma_exprs_view_index(s.remove(0), i);
        lemma_exprs_view_index(s, i + 1);
    }
    assert(exprs_view(s.remove(0)) =~= exprs_view(s).drop_first());
}

/// An assignment adds no scope and takes none away.
pub proof fn lemma_assign_keeps_scopes<V>(tree: ScopeTree<V>, locals: Map<Seq<char>, usize>, env: int, name: Seq<char>, v: V)
    requires
        tree.wf(),
    ensures
        spec_assign(tree, locals, env, name, v) matches Some(t) ==> t.len() == tree.len() && t.wf(),
{
    if locals.contains_key(name) {
        lemma_ancestor_valid(tree, env, locals[name] as nat);
    } else {
        lemma_holder_lookup(tree, 0, name);
    }
}

/// Goes down `e`, evaluated in scope `env`, to the first thing that needs the
/// host; see `spec_start`.
fn start<V>(waits: &mut Vec<Wait<V>>, env: usize, e: Expr) -> (a: EvalAction<V>)
    ensures
        (waits_view(final(waits)@), a@) == spec_start(env, e@, waits_view(old(waits)@)),
    decreases e,
{
    let ghost ev = e@;
    let ghost w0 = waits_view(waits@);
    match e {
        Expr::Literal(t) => EvalAction::Literal(t),
        Expr::Variable(t) => match t.token_type {
            TokenType::Identifier(n) => EvalAction::Read(env, n),
            _ => {
                *waits = Vec::new();
                assert(waits_view(waits@) =~= Seq::<SWait<V>>::empty());
                EvalAction::Fail(EvalError::NotAVariable)
            },
        },
        Expr::ExposedFn(_) => {
            *waits = Vec::new();
            assert(waits_view(waits@) =~= Seq::<SWait<V>>::empty());
            EvalAction::Fail(EvalError::ExposedFunction)
        },
        Expr::Grouping(inner) => start(waits, env, *inner),
        Expr::Assignment { target, expr } => {
            let ghost tv = (*target)@;
            let ghost xv = (*expr)@;
            assert(ev == SExpr::Assignment { target: Box::new(tv), expr: Box::new(xv) });
            let w = match *target {
                Expr::Variable(t) => match t.token_type {
                    TokenType::Identifier(n) => Wait::Assign(n),
                    _ => Wait::AssignInvalid,
                },
                _ => Wait::AssignInvalid,
            };
            proof {
                lemma_waits_view_push(waits@, w);
            }
            assert(spec_start(env, ev, w0) == spec_start(env, xv, w0.push(wait_view(w))));
            waits.push(w);
            start(waits, env, *expr)
        },
        Expr::Binary { left, operator, right } => {
            let w = Wait::Left(operator, *right);
            proof {
                lemma_waits_view_push(waits@, w);
            }
            waits.push(w);
            start(waits, env, *left)
        },
        Expr::Unary { operator, right } => {
            let w = Wait::Unary(operator);
            proof {
                lemma_waits_view_push(waits@, w);
            }
            waits.push(w);
            start(waits, env, *right)
        },
        Expr::Conditional { condition, true_branch, false_branch } => {
            let w = Wait::Cond(*true_branch, *false_branch);
            proof {
                lemma_waits_view_push(waits@, w);
            }
            waits.push(w);
            start(waits, env, *condition)
        },
        Expr::Call { callee, args, .. } => {
            let w = Wait::Callee(args);
            proof {
                lemma_waits_view_push(waits@, w);
            }
            waits.push(w);
            start(waits, env, *callee)
        },
        Expr::Lambda { params, body } => EvalAction::Lambda(env, params, *body),
    }
}

fn same_type(a: Option<Types>, b: Option<Types>) -> (r: bool)
    ensures
        r == (a == b),
{
    match (a, b) {
        (None, None) => true,
        (Some(x), Some(y)) => x == y,
        _ => false,
    }
}

fn type_is(a: Option<Types>, t: Types) -> (r: bool)
    ensures
        r == (a == Some(t)),
{
    match a {
        Some(x) => x == t,
        None => false,
    }
}

/// What a binary operator asks for; see `binary_decision`.
fn decide_binary<V>(op: Token, l: V, ls: Shape, r: V, rs: Shape) -> (a: EvalAction<V>)
    ensures
        a@ == binary_decision(op, l, ls, r, rs),
{
    let both_numbers = type_is(ls.ty, Types::Number) && type_is(rs.ty, Types::Number);
    match op.token_type {
        TokenType::EqualEqual | TokenType::BangEqual => {
            if ls.ty.is_some() && same_type(ls.ty, rs.ty) {
                EvalAction::Binary(op, l, r)
            } else {
                EvalAction::Bool(matches!(op.token_type, TokenType::BangEqual))
            }
        },
        TokenType::Lesser | TokenType::LesserEqual | TokenType::Greater | TokenType::GreaterEqual => {
            if same_type(ls.ty, rs.ty) {
                EvalAction::Binary(op, l, r)
            } else {
                EvalAction::Fail(EvalError::DifferentTypes)
            }
        },
        TokenType::Plus => {
            if both_numbers || (type_is(ls.ty, Types::String) && type_is(rs.ty, Types::String)) {
                EvalAction::Binary(op, l, r)
            } else {
                EvalAction::Fail(EvalError::InvalidAddition)
            }
        },
        TokenType::Minus => if both_numbers {
            EvalAction::Binary(op, l, r)
        } else {
            EvalAction::Fail(EvalError::InvalidSubtraction)
        },
        TokenType::Star => if both_numbers {
            EvalAction::Binary(op, l, r)
        } else {
            EvalAction::Fail(EvalError::InvalidMultiplication)
        },
        TokenType::Slash => if both_numbers {
            EvalAction::Binary(op, l, r)
        } else {
            EvalAction::Fail(EvalError::InvalidDivision)
        },
        _ => EvalAction::Fail(EvalError::InvalidOperator),
    }
}

/// What a unary operator asks for; see `unary_decision`.
fn decide_unary<V>(op: Token, v: V, s: Shape) -> (a: EvalAction<V>)
    ensures
        a@ == unary_decision(op, v, s),
{
    match op.token_type {
        TokenType::Minus => if type_is(s.ty, Types::Number) {
            EvalAction::Negate(v)
        } else {
            EvalAction::Fail(EvalError::InvalidNegation)
        },
        TokenType::Not => EvalAction::Bool(!s.truthy),
        _ => EvalAction::Fail(EvalError::InvalidOperator),
    }
}

/// What a call asks for; see `call_decision`.
fn decide_call<V>(f: V, fs: Shape, args: Vec<V>) -> (a: EvalAction<V>)
    ensures
        a@ == call_decision(f, fs, args@),
{
    match fs.arity {
        None => EvalAction::Fail(EvalError::NotCallable),
        Some((n, variable)) => if call_accepts(n, variable, args.len()) {
            EvalAction::Call(f, args)
        } else {
            EvalAction::Fail(EvalError::WrongArity)
        },
    }
}

impl<V> EvalState<V> {
    /// Starts evaluating `e` in scope `env`: the state and the first request.
    pub fn begin(env: usize, e: Expr) -> (r: (EvalState<V>, EvalAction<V>))
        ensures
            (r.0@, r.1@) == go(env, e@, Seq::<SWait<V>>::empty()),
    {
        let mut waits: Vec<Wait<V>> = Vec::new();
        assert(waits_view(waits@) =~= Seq::<SWait<V>>::empty());
        let a = start(&mut waits, env, e);
        (EvalState { env, waits }, a)
    }

    /// The scope the expression is evaluated in.
    pub fn env(&self) -> (r: usize)
        ensures
            r == self@.env,
    {
        self.env
    }

    /// Puts to use what a request asked for when the machine stopped asking.
    fn stop(&mut self, a: EvalAction<V>) -> (r: EvalAction<V>)
        requires
            a is Fail,
        ensures
            (final(self)@, r@) == stopped(old(self)@.env, a@),
    {
        self.waits = Vec::new();
        assert(waits_view(self.waits@) =~= Seq::<SWait<V>>::empty());
        a
    }
}

/// Hands the value `v`, of shape `s`, that the host computed for the last
/// request to the machine, which puts it to use and makes its next request;
/// see `spec_deliver`.
pub fn eval_step<V>(it: &mut Interpreter<V>, st: &mut EvalState<V>, v: V, s: Shape) -> (a: EvalAction<V>)
    requires
        old(it).wf(),
        old(it).env@.valid(old(st)@.env as int),
    ensures
        final(it).wf(),
        final(it).locals == old(it).locals,
        final(it).env@.len() == old(it).env@.len(),
        (final(it).env@, final(st)@, a@) == spec_deliver(old(it).env@, old(it).locals@, old(st)@, v, s),
    decreases old(st)@.waits.len(),
{
    let env = st.env;
    if st.waits.len() == 0 {
        assert(waits_view(st.waits@) =~= Seq::<SWait<V>>::empty());
        return EvalAction::Done(v);
    }
    let ghost ws = st.waits@;
    proof {
        lemma_waits_view_drop_last(ws);
    }
    let w = st.waits.pop().unwrap();
    match w {
        Wait::Assign(n) => {
            proof {
                it.env.lemma_view_wf();
                lemma_assign_keeps_scopes(it.env@, it.locals@, env as int, n@, v);
            }
            if it.assign(env, n.as_str(), v) {
                EvalAction::Read(env, n)
            } else {
                st.stop(EvalAction::Fail(EvalError::UndefinedVariable))
            }
        },
        Wait::AssignInvalid => st.stop(EvalAction::Fail(EvalError::InvalidAssignmentTarget)),
        Wait::Left(op, right) => {
            if matches!(op.token_type, TokenType::Or) {
                if s.truthy {
                    eval_step(it, st, v, s)
                } else {
                    start(&mut st.waits, env, right)
                }
            } else if matches!(op.token_type, TokenType::And) {
                if s.truthy {
                    start(&mut st.waits, env, right)
                } else {
                    eval_step(it, st, v, s)
                }
            } else {
                let w2 = Wait::Right(op, v, s);
                proof {
                    lemma_waits_view_push(st.waits@, w2);
                }
                st.waits.push(w2);
                start(&mut st.waits, env, right)
            }
        },
        Wait::Right(op, l, ls) => {
            let a = decide_binary(op, l, ls, v, s);
            if matches!(a, EvalAction::Fail(_)) {
                st.stop(a)
            } else {
                a
            }
        },
        Wait::Unary(op) => {
            let a = decide_unary(op, v, s);
            if matches!(a, EvalAction::Fail(_)) {
                st.stop(a)
            } else {
                a
            }
        },
        Wait::Cond(t, f) => start(&mut st.waits, env, if s.truthy { t } else { f }),
        Wait::Callee(mut args) => {
            if args.len() == 0 {
                let a = decide_call(v, s, Vec::new());
                if matches!(a, EvalAction::Fail(_)) {
                    st.stop(a)
                } else {
                    a
                }
            } else {
                proof {
                    lemma_exprs_view_remove_first(args@);
                }
                let first = args.remove(0);
                let w2 = Wait::Args(v, s, Vec::new(), args);
                proof {
                    lemma_waits_view_push(st.waits@, w2);
                }
                st.waits.push(w2);
                start(&mut st.waits, env, first)
            }
        },
        Wait::Args(f, fs, mut done, mut todo) => {
            done.push(v);
            if todo.len() == 0 {
                let a = decide_call(f, fs, done);
                if matches!(a, EvalAction::Fail(_)) {
                    st.stop(a)
                } else {
                    a
                }
            } else {
                proof {
                    lemma_exprs_view_remove_first(todo@);
                }
                let first = todo.remove(0);
                let w2 = Wait::Args(f, fs, done, todo);
                proof {
                    lemma_waits_view_push(st.waits@, w2);
                }
                st.waits.push(w2);
                start(&mut st.waits, env, first)
            }
        },
    }
}


// ---------------------------------------------------------------------------
// Laws
// ---------------------------------------------------------------------------

/// `or` and `and` give the operand that decides: a true left operand of `or`
/// and a false left operand of `and` are the value of the whole operation,
/// handed on as they are, and the right operand is never evaluated; otherwise
/// the right operand is evaluated next, and its value, handed on as it comes,
/// is the value of the whole operation.
pub proof fn law_or_and_give_the_deciding_operand<V>(
    tree: ScopeTree<V>,
    locals: Map<Seq<char>, usize>,
    st: SEvalState<V>,
    v: V,
    s: Shape,
)
    requires
        st.waits.len() > 0,
        st.waits.last() matches SWait::Left(op, _) && (op.token_type is Or || op.token_type is And),
    ensures
        ({
            let rest = SEvalState { env: st.env, waits: st.waits.drop_last() };
            match st.waits.last() {
                SWait::Left(op, right) => {
                    let decided = if op.token_type is Or {
                        s.truthy
                    } else {
                        !s.truthy
                    };
                    &&& decided ==> spec_deliver(tree, locals, st, v, s) == spec_deliver(tree, locals, rest, v, s)
                    &&& !decided ==> spec_deliver(tree, locals, st, v, s) == ({
                        let (s1, a) = go(st.env, right, rest.waits);
                        (tree, s1, a)
                    })
                },
                _ => false,
            }
        }),
{
}

/// A conditional evaluates exactly one branch: the true branch where its
/// condition counts as true, the false branch otherwise; the value of that
/// branch is the value of the conditional.
pub proof fn law_conditional_evaluates_one_branch<V>(
    tree: ScopeTree<V>,
    locals: Map<Seq<char>, usize>,
    st: SEvalState<V>,
    v: V,
    s: Shape,
)
    requires
        st.waits.len() > 0,
        st.waits.last() is Cond,
    ensures
        match st.waits.last() {
            SWait::Cond(t, f) => spec_deliver(tree, locals, st, v, s) == ({
                let (s1, a) = go(st.env, if s.truthy { t } else { f }, st.waits.drop_last());
                (tree, s1, a)
            }),
            _ => false,
        },
{
}

/// An assignment evaluates its value first and then stores it where
/// `spec_assign` says (the scope the resolver's depth points to, or the
/// globals); reading the variable back, which gives the assignment's value,
/// then gives the value stored. Where no scope holds the variable, the
/// evaluation stops with `UndefinedVariable` and nothing is stored.
pub proof fn law_assignment_stores_then_reads_back<V>(
    tree: ScopeTree<V>,
    locals: Map<Seq<char>, usize>,
    st: SEvalState<V>,
    v: V,
    s: Shape,
)
    requires
        tree.wf(),
        tree.valid(st.env as int),
        st.waits.len() > 0,
        st.waits.last() is Assign,
    ensures
        ({
            let (t1, s1, a) = spec_deliver(tree, locals, st, v, s);
            match st.waits.last() {
                SWait::Assign(n) => match spec_assign(tree, locals, st.env as int, n, v) {
                    Some(t) => {
                        &&& t1 == t
                        &&& a == SEvalAction::<V>::Read(st.env, n)
                        &&& s1.waits == st.waits.drop_last()
                        &&& spec_look_up(t1, locals, st.env as int, n) == Some(v)
                    },
                    None => t1 == tree && a == SEvalAction::<V>::Fail(EvalError::UndefinedVariable),
                },
                _ => false,
            }
        }),
{
    if let SWait::Assign(n) = st.waits.last() {
        law_read_after_assign(tree, locals, st.env as int, n, v);
    }
}

/// A call evaluates its function first, then its arguments from left to
/// right, and asks for the call only once all are known, with them in their
/// order: the function's value waits with the arguments evaluated so far,
/// and the last argument's value completes them.
pub proof fn law_call_evaluates_left_to_right<V>(
    tree: ScopeTree<V>,
    locals: Map<Seq<char>, usize>,
    st: SEvalState<V>,
    v: V,
    s: Shape,
)
    requires
        st.waits.len() > 0,
        st.waits.last() is Callee || st.waits.last() is Args,
    ensures
        ({
            let rest = st.waits.drop_last();
            match st.waits.last() {
                SWait::Callee(args) => spec_deliver(tree, locals, st, v, s) == if args.len() == 0 {
                    let (s1, a) = ask(st.env, rest, call_decision(v, s, Seq::empty()));
                    (tree, s1, a)
                } else {
                    let (s1, a) = go(st.env, args[0], rest.push(SWait::Args(v, s, Seq::empty(), args.drop_first())));
                    (tree, s1, a)
                },
                SWait::Args(f, fs, done, todo) => spec_deliver(tree, locals, st, v, s) == if todo.len() == 0 {
                    let (s1, a) = ask(st.env, rest, call_decision(f, fs, done.push(v)));
                    (tree, s1, a)
                } else {
                    let (s1, a) = go(st.env, todo[0], rest.push(SWait::Args(f, fs, done.push(v), todo.drop_first())));
                    (tree, s1, a)
                },
                _ => false,
            }
        }),
{
}


/// `==` and `!=` on two values of one type ask the host to compare the
/// values themselves, with the operator as written; on values of different
/// types (or two functions, which have no type) `==` is false and `!=` is
/// true without comparing. So `!=` is decided the opposite way of `==` on
/// every pair of operands.
pub proof fn law_equality_compares_values<V>(
    tree: ScopeTree<V>,
    locals: Map<Seq<char>, usize>,
    st: SEvalState<V>,
    v: V,
    s: Shape,
)
    requires
        st.waits.len() > 0,
        st.waits.last() matches SWait::Right(op, _, _) && (op.token_type is EqualEqual || op.token_type
            is BangEqual),
    ensures
        ({
            let (t1, s1, a) = spec_deliver(tree, locals, st, v, s);
            match st.waits.last() {
                SWait::Right(op, l, ls) => {
                    &&& t1 == tree
                    &&& s1 == (SEvalState { env: st.env, waits: st.waits.drop_last() })
                    &&& if ls.ty is Some && ls.ty == s.ty {
                        a == SEvalAction::<V>::Binary(op, l, v)
                    } else {
                        a == SEvalAction::<V>::Bool(op.token_type is BangEqual)
                    }
                },
                _ => false,
            }
        }),
{
}

/// A function of fixed arity `n` is called only with exactly `n`
/// arguments: when its last argument (or, with none, the function itself) is
/// known, the machine asks for the call with all the arguments in order if
/// there are `n` of them, and stops with `WrongArity` otherwise.
pub proof fn law_fixed_arity_call_takes_exactly_its_arity<V>(
    tree: ScopeTree<V>,
    locals: Map<Seq<char>, usize>,
    st: SEvalState<V>,
    v: V,
    s: Shape,
)
    requires
        st.waits.len() > 0,
        st.waits.last() matches SWait::Args(_, fs, _, todo) && todo.len() == 0 && fs.arity matches Some(
            (_, false),
        ),
    ensures
        ({
            let (t1, s1, a) = spec_deliver(tree, locals, st, v, s);
            match st.waits.last() {
                SWait::Args(f, fs, done, _) => match fs.arity {
                    Some((n, _)) => {
                        &&& t1 == tree
                        &&& done.len() + 1 == n ==> a == SEvalAction::<V>::Call(f, done.push(v))
                        &&& done.len() + 1 != n ==> a == SEvalAction::<V>::Fail(EvalError::WrongArity)
                    },
                    None => false,
                },
                _ => false,
            }
        }),
{
    if let SWait::Args(f, fs, done, _) = st.waits.last() {
        if let Some((n, _)) = fs.arity {
            crate::interpreter::law_call_accepts_by_arity(n, (done.len() + 1) as usize);
        }
    }
}


/// What each binary operator other than `or` and `and` does with its two
/// operands, the left one `l` of shape `ls` and the right one `v` of shape
/// `s`: an ordering comparison asks the host to compare operands of one type
/// and stops with `DifferentTypes` otherwise; `+` asks the host to add two
/// numbers or join two strings and stops with `InvalidAddition` otherwise;
/// `-`, `*` and `/` ask the host to compute on two numbers and stop
/// otherwise. An operator the host is asked for is the one written, with
/// the left operand first.
pub proof fn law_operators_take_their_operand_types<V>(
    tree: ScopeTree<V>,
    locals: Map<Seq<char>, usize>,
    st: SEvalState<V>,
    v: V,
    s: Shape,
)
    requires
        st.waits.len() > 0,
        st.waits.last() is Right,
    ensures
        ({
            let (t1, s1, a) = spec_deliver(tree, locals, st, v, s);
            match st.waits.last() {
                SWait::Right(op, l, ls) => {
                    let tt = op.token_type;
                    let numbers = ls.ty == Some(Types::Number) && s.ty == Some(Types::Number);
                    let strings = ls.ty == Some(Types::String) && s.ty == Some(Types::String);
                    let asked = SEvalAction::<V>::Binary(op, l, v);
                    &&& t1 == tree
                    &&& (tt is Lesser || tt is LesserEqual || tt is Greater || tt is GreaterEqual) ==> a == if ls.ty
                        == s.ty {
                        asked
                    } else {
                        SEvalAction::Fail(EvalError::DifferentTypes)
                    }
                    &&& tt is Plus ==> a == if numbers || strings {
                        asked
                    } else {
                        SEvalAction::Fail(EvalError::InvalidAddition)
                    }
                    &&& tt is Minus ==> a == if numbers {
                        asked
                    } else {
                        SEvalAction::Fail(EvalError::InvalidSubtraction)
                    }
                    &&& tt is Star ==> a == if numbers {
                        asked
                    } else {
                        SEvalAction::Fail(EvalError::InvalidMultiplication)
                    }
                    &&& tt is Slash ==> a == if numbers {
                        asked
                    } else {
                        SEvalAction::Fail(EvalError::InvalidDivision)
                    }
                    &&& a is Fail ==> s1.waits.len() == 0
                    &&& !(a is Fail) ==> s1.waits == st.waits.drop_last()
                },
                _ => false,
            }
        }),
{
}

/// Negation asks the host to negate a number and stops with
/// `InvalidNegation` on anything else; `not` gives the boolean opposite to
/// its operand's truthiness, whatever the operand is.
pub proof fn law_unary_operators<V>(tree: ScopeTree<V>, locals: Map<Seq<char>, usize>, st: SEvalState<V>, v: V, s: Shape)
    requires
        st.waits.len() > 0,
        st.waits.last() is Unary,
    ensures
        ({
            let (t1, s1, a) = spec_deliver(tree, locals, st, v, s);
            match st.waits.last() {
                SWait::Unary(op) => {
                    &&& t1 == tree
                    &&& op.token_type is Minus ==> a == if s.ty == Some(Types::Number) {
                        SEvalAction::<V>::Negate(v)
                    } else {
                        SEvalAction::Fail(EvalError::InvalidNegation)
                    }
                    &&& op.token_type is Not ==> a == SEvalAction::<V>::Bool(!s.truthy) && s1.waits
                        == st.waits.drop_last()
                },
                _ => false,
            }
        }),
{
}

} // verus!
