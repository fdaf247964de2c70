use vstd::prelude::*;

use crate::tokens::{STokenType, Token};

verus! {

/// An expression of the language.
#[derive(Debug)]
pub enum Expr {
    Assignment { target: Box<Expr>, expr: Box<Expr> },
    Binary { left: Box<Expr>, operator: Token, right: Box<Expr> },
    Unary { operator: Token, right: Box<Expr> },
    Grouping(Box<Expr>),
    Literal(Token),
    Variable(Token),
    ExposedFn(Token),
    Conditional { condition: Box<Expr>, true_branch: Box<Expr>, false_branch: Box<Expr> },
    Call { callee: Box<Expr>, paren: Token, args: Vec<Expr> },
    Lambda { params: Vec<Token>, body: Box<Expr> },
}

/// The abstract form of an expression: the same tree, with each list of
/// arguments or parameters as a sequence, and a literal as the abstract form
/// of its token type and its place.
pub enum SExpr {
    Assignment { target: Box<SExpr>, expr: Box<SExpr> },
    Binary { left: Box<SExpr>, operator: Token, right: Box<SExpr> },
    Unary { operator: Token, right: Box<SExpr> },
    Grouping(Box<SExpr>),
    Literal(STokenType, (usize, usize)),
    Variable(Token),
    ExposedFn(Token),
    Conditional { condition: Box<SExpr>, true_branch: Box<SExpr>, false_branch: Box<SExpr> },
    Call { callee: Box<SExpr>, paren: Token, args: Seq<SExpr> },
    Lambda { params: Seq<Token>, body: Box<SExpr> },
}

pub open spec fn expr_view(e: Expr) -> SExpr
    decreases e,
{
    match e {
        Expr::Assignment { target, expr } => SExpr::Assignment {
            target: Box::new(expr_view(*target)),
            expr: Box::new(expr_view(*expr)),
        },
        Expr::Binary { left, operator, right } => SExpr::Binary {
            left: Box::new(expr_view(*left)),
            operator,
            right: Box::new(expr_view(*right)),
        },
        Expr::Unary { operator, right } => SExpr::Unary { operator, right: Box::new(expr_view(*right)) },
        Expr::Grouping(inner) => SExpr::Grouping(Box::new(expr_view(*inner))),
        Expr::Literal(t) => SExpr::Literal(t.token_type@, t.line),
        Expr::Variable(t) => SExpr::Variable(t),
        Expr::ExposedFn(t) => SExpr::ExposedFn(t),
        Expr::Conditional { condition, true_branch, false_branch } => SExpr::Conditional {
            condition: Box::new(expr_view(*condition)),
            true_branch: Box::new(expr_view(*true_branch)),
            false_branch: Box::new(expr_view(*false_branch)),
        },
        Expr::Call { callee, paren, args } => SExpr::Call {
            callee: Box::new(expr_view(*callee)),
            paren,
            args: exprs_view(args@),
        },
        Expr::Lambda { params, body } => SExpr::Lambda { params: params@, body: Box::new(expr_view(*body)) },
    }
}

pub open spec fn exprs_view(s: Seq<Expr>) -> Seq<SExpr>
    decreases s,
{
    if s.len() == 0 {
        Seq::empty()
    } else {
        exprs_view(s.drop_last()).push(expr_view(s.last()))
    }
}

pub proof fn lemma_exprs_view_len(s: Seq<Expr>)
    ensures
        exprs_view(s).len() == s.len(),
    decreases s.len(),
{
    if s.len() > 0 {
        lemma_exprs_view_len(s.drop_last());
    }
}

pub proof fn lemma_exprs_view_index(s: Seq<Expr>, i: int)
    requires
        0 <= i < s.len(),
    ensures
        exprs_view(s).len() == s.len(),
        exprs_view(s)[i] == expr_view(s[i]),
    decreases s.len(),
{
    lemma_exprs_view_len(s);
    if i < s.len() - 1 {
        lemma_exprs_view_index(s.drop_last(), i);
    }
}

impl View for Expr {
    type V = SExpr;

    open spec fn view(&self) -> SExpr {
        expr_view(*self)
    }
}

impl Expr {
    pub fn assignment(target: Expr, expr: Expr) -> (r: Expr)
        ensures
            r == (Expr::Assignment { target: Box::new(target), expr: Box::new(expr) }),
    {
        Expr::Assignment { target: Box::new(target), expr: Box::new(expr) }
    }

    pub fn binary(left: Expr, op: Token, right: Expr) -> (r: Expr)
        ensures
            r == (Expr::Binary { left: Box::new(left), operator: op, right: Box::new(right) }),
    {
        Expr::Binary { left: Box::new(left), operator: op, right: Box::new(right) }
    }

    pub fn unary(op: Token, right: Expr) -> (r: Expr)
        ensures
            r == (Expr::Unary { operator: op, right: Box::new(right) }),
    {
        Expr::Unary { operator: op, right: Box::new(right) }
    }

    pub fn grouping(expr: Expr) -> (r: Expr)
        ensures
            r == Expr::Grouping(Box::new(expr)),
    {
        Expr::Grouping(Box::new(expr))
    }

    pub fn literal(token: Token) -> (r: Expr)
        ensures
            r == Expr::Literal(token),
    {
        Expr::Literal(token)
    }

    pub fn variable(token: Token) -> (r: Expr)
        ensures
            r == Expr::Variable(token),
    {
        Expr::Variable(token)
    }

    pub fn exposed_fn(token: Token) -> (r: Expr)
        ensures
            r == Expr::ExposedFn(token),
    {
        Expr::ExposedFn(token)
    }

    pub fn conditional(condition: Expr, true_branch: Expr, false_branch: Expr) -> (r: Expr)
        ensures
            r == (Expr::Conditional {
                condition: Box::new(condition),
                true_branch: Box::new(true_branch),
                false_branch: Box::new(false_branch),
            }),
    {
        Expr::Conditional {
            condition: Box::new(condition),
            true_branch: Box::new(true_branch),
            false_branch: Box::new(false_branch),
        }
    }

    pub fn callable(callee: Expr, paren: Token, args: Vec<Expr>) -> (r: Expr)
        ensures
            r == (Expr::Call { callee: Box::new(callee), paren, args }),
    {
        Expr::Call { callee: Box::new(callee), paren, args }
    }

    pub fn lambda(params: Vec<Token>, body: Expr) -> (r: Expr)
        ensures
            r == (Expr::Lambda { params, body: Box::new(body) }),
    {
        Expr::Lambda { params, body: Box::new(body) }
    }
}

impl Expr {
    /// A copy of the expression.
    pub fn duplicate(&self) -> (r: Expr)
        ensures
            r@ == self@,
        decreases self,
    {
        match self {
            Expr::Assignment { target, expr } => Expr::Assignment {
                target: Box::new(target.duplicate()),
                expr: Box::new(expr.duplicate()),
            },
            Expr::Binary { left, operator, right } => Expr::Binary {
                left: Box::new(left.duplicate()),
                operator: operator.duplicate(),
                right: Box::new(right.duplicate()),
            },
            Expr::Unary { operator, right } => Expr::Unary {
                operator: operator.duplicate(),
                right: Box::new(right.duplicate()),
            },
            Expr::Grouping(inner) => Expr::Grouping(Box::new(inner.duplicate())),
            Expr::Literal(t) => Expr::Literal(t.duplicate()),
            Expr::Variable(t) => Expr::Variable(t.duplicate()),
            Expr::ExposedFn(t) => Expr::ExposedFn(t.duplicate()),
            Expr::Conditional { condition, true_branch, false_branch } => Expr::Conditional {
                condition: Box::new(condition.duplicate()),
                true_branch: Box::new(true_branch.duplicate()),
                false_branch: Box::new(false_branch.duplicate()),
            },
            Expr::Call { callee, paren, args } => {
                let c = callee.duplicate();
                let n = args.len();
                let mut v: Vec<Expr> = Vec::new();
                let mut i: usize = 0;
                while i < n
                    invariant
                        *self == (Expr::Call { callee: *callee, paren: *paren, args: *args }),
                        n == args@.len(),
                        i <= n,
                        v@.len() == i,
                        forall|j: int| 0 <= j < i ==> #[trigger] v@[j]@ == args@[j]@,
                    decreases n - i,
                {
                    proof {
                        let ghost whole: Expr = *self;
                        assert(decreases_to!(whole => whole->Call_args));
                        assert(decreases_to!(*args => args@));
                        assert(decreases_to!(args@ => args@[i as int]));
                    }
                    let d = args[i].duplicate();
                    v.push(d);
                    i = i + 1;
                }
                proof {
                    lemma_exprs_view_same(v@, args@);
                }
                Expr::Call { callee: Box::new(c), paren: paren.duplicate(), args: v }
            },
            Expr::Lambda { params, body } => {
                let p = duplicate_tokens(params);
                Expr::Lambda { params: p, body: Box::new(body.duplicate()) }
            },
        }
    }
}

/// Lists of expressions whose members have the same abstract forms have the
/// same abstract form.
pub proof fn lemma_exprs_view_same(a: Seq<Expr>, b: Seq<Expr>)
    requires
        a.len() == b.len(),
        forall|j: int| 0 <= j < a.len() ==> #[trigger] a[j]@ == b[j]@,
    ensures
        exprs_view(a) == exprs_view(b),
    decreases a.len(),
{
    if a.len() > 0 {
        lemma_exprs_view_same(a.drop_last(), b.drop_last());
        assert(a.last()@ == b[b.len() - 1]@);
    }
}

/// A copy of a list of tokens.
pub fn duplicate_tokens(ts: &Vec<Token>) -> (r: Vec<Token>)
    ensures
        r@ == ts@,
{
    let mut v: Vec<Token> = Vec::new();
    let mut i: usize = 0;
    while i < ts.len()
        invariant
            i <= ts@.len(),
            v@ == ts@.take(i as int),
        decreases ts@.len() - i,
    {
        v.push(ts[i].duplicate());
        i = i + 1;
        assert(v@ =~= ts@.take(i as int));
    }
    assert(ts@.take(ts@.len() as int) =~= ts@);
    v
}

} // verus!
