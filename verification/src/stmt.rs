use vstd::prelude::*;

use crate::expr::{expr_view, Expr, SExpr};
use crate::tokens::{STokenType, Token, TokenType};

verus! {

/// A statement of the language.
///
/// A `for` loop holds the step that was written; without one, it holds the
/// step by one towards its end (`-1` for a `>` condition, `1` for `<`).
#[derive(Debug)]
pub enum Stmt {
    Expr(Expr),
    Print(Expr),
    Var { target: Token, expr: Box<Expr> },
    Block(Vec<Stmt>),
    Conditional { condition: Box<Expr>, true_branch: Vec<Stmt>, false_branch: Option<Vec<Stmt>> },
    While { condition: Box<Expr>, stmts: Vec<Stmt> },
    For {
        identifier: Token,
        start: Box<Expr>,
        end: Box<Expr>,
        step: Box<Expr>,
        condition: Token,
        stmts: Vec<Stmt>,
    },
    Function { identifier: Token, params: Vec<Token>, body: Vec<Stmt> },
    Return(Expr),
    Break,
    Continue,
}

/// The abstract form of a statement: the same tree, with expressions in their
/// abstract form and each list of statements or parameters as a sequence.
pub enum SStmt {
    Expr(SExpr),
    Print(SExpr),
    Var { target: Token, expr: SExpr },
    Block(Seq<SStmt>),
    Conditional { condition: SExpr, true_branch: Seq<SStmt>, false_branch: Option<Seq<SStmt>> },
    While { condition: SExpr, stmts: Seq<SStmt> },
    For {
        identifier: Token,
        start: SExpr,
        end: SExpr,
        step: SExpr,
        condition: Token,
        stmts: Seq<SStmt>,
    },
    Function { identifier: Token, params: Seq<Token>, body: Seq<SStmt> },
    Return(SExpr),
    Break,
    Continue,
}

pub open spec fn stmt_view(st: Stmt) -> SStmt
    decreases st,
{
    match st {
        Stmt::Expr(e) => SStmt::Expr(e@),
        Stmt::Print(e) => SStmt::Print(e@),
        Stmt::Var { target, expr } => SStmt::Var { target, expr: (*expr)@ },
        Stmt::Block(stmts) => SStmt::Block(stmts_view(stmts@)),
        Stmt::Conditional { condition, true_branch, false_branch } => SStmt::Conditional {
            condition: (*condition)@,
            true_branch: stmts_view(true_branch@),
            false_branch: match false_branch {
                Some(f) => Some(stmts_view(f@)),
                None => None,
            },
        },
        Stmt::While { condition, stmts } => SStmt::While { condition: (*condition)@, stmts: stmts_view(stmts@) },
        Stmt::For { identifier, start, end, step, condition, stmts } => SStmt::For {
            identifier,
            start: (*start)@,
            end: (*end)@,
            step: (*step)@,
            condition,
            stmts: stmts_view(stmts@),
        },
        Stmt::Function { identifier, params, body } => SStmt::Function {
            identifier,
            params: params@,
            body: stmts_view(body@),
        },
        Stmt::Return(e) => SStmt::Return(e@),
        Stmt::Break => SStmt::Break,
        Stmt::Continue => SStmt::Continue,
    }
}

pub open spec fn stmts_view(s: Seq<Stmt>) -> Seq<SStmt>
    decreases s,
{
    if s.len() == 0 {
        Seq::empty()
    } else {
        stmts_view(s.drop_last()).push(stmt_view(s.last()))
    }
}

pub proof fn lemma_stmts_view_index(s: Seq<Stmt>, i: int)
    requires
        0 <= i < s.len(),
    ensures
        stmts_view(s).len() == s.len(),
        stmts_view(s)[i] == stmt_view(s[i]),
    decreases s.len(),
{
    lemma_stmts_view_len(s);
    if i < s.len() - 1 {
        lemma_stmts_view_index(s.drop_last(), i);
    }
}

pub proof fn lemma_stmts_view_len(s: Seq<Stmt>)
    ensures
        stmts_view(s).len() == s.len(),
    decreases s.len(),
{
    if s.len() > 0 {
        lemma_stmts_view_len(s.drop_last());
    }
}

impl View for Stmt {
    type V = SStmt;

    open spec fn view(&self) -> SStmt {
        stmt_view(*self)
    }
}

/// The statement `return nil;` that a bare `return;` stands for.
pub open spec fn spec_return_nil() -> Stmt {
    Stmt::Return(Expr::Literal(Token { token_type: TokenType::Nil, line: (0, 0) }))
}

impl Stmt {
    pub fn expr(expr: Expr) -> (r: Self)
        ensures
            r == Stmt::Expr(expr),
    {
        Self::Expr(expr)
    }

    pub fn print(expr: Expr) -> (r: Self)
        ensures
            r == Stmt::Print(expr),
    {
        Self::Print(expr)
    }

    pub fn var(target: Token, expr: Expr) -> (r: Self)
        ensures
            r == (Stmt::Var { target, expr: Box::new(expr) }),
    {
        Self::Var { target, expr: Box::new(expr) }
    }

    pub fn block(stmts: Vec<Stmt>) -> (r: Self)
        ensures
            r == Stmt::Block(stmts),
    {
        Self::Block(stmts)
    }

    pub fn conditional(condition: Expr, true_branch: Vec<Stmt>, false_branch: Option<Vec<Stmt>>) -> (r: Self)
        ensures
            r == (Stmt::Conditional { condition: Box::new(condition), true_branch, false_branch }),
    {
        Self::Conditional { condition: Box::new(condition), true_branch, false_branch }
    }

    pub fn while_stmt(condition: Expr, stmts: Vec<Stmt>) -> (r: Self)
        ensures
            r == (Stmt::While { condition: Box::new(condition), stmts }),
    {
        Self::While { condition: Box::new(condition), stmts }
    }

    pub fn for_stmt(
        identifier: Token,
        start: Expr,
        end: Expr,
        step: Option<Expr>,
        condition: Token,
        stmts: Vec<Stmt>,
    ) -> (r: Self)
        ensures
            r@ == (SStmt::For {
                identifier,
                start: start@,
                end: end@,
                step: match step {
                    Some(s) => s@,
                    None => spec_default_step(condition),
                },
                condition,
                stmts: stmts_view(stmts@),
            }),
    {
        let step = match step {
            Some(s) => s,
            None => default_step(&condition),
        };
        Self::For { identifier, start: Box::new(start), end: Box::new(end), step: Box::new(step), condition, stmts }
    }

    pub fn function(identifier: Token, params: Vec<Token>, body: Vec<Stmt>) -> (r: Self)
        ensures
            r == (Stmt::Function { identifier, params, body }),
    {
        Self::Function { identifier, params, body }
    }

    pub fn return_stmt(expr: Option<Expr>) -> (r: Self)
        ensures
            r == match expr {
                Some(e) => Stmt::Return(e),
                None => spec_return_nil(),
            },
    {
        match expr {
            Some(e) => Self::Return(e),
            None => Self::Return(Expr::literal(Token::new(TokenType::Nil, (0, 0)))),
        }
    }

    pub fn break_stmt() -> (r: Self)
        ensures
            r == Stmt::Break,
    {
        Self::Break
    }

    pub fn continue_stmt() -> (r: Self)
        ensures
            r == Stmt::Continue,
    {
        Self::Continue
    }
}

pub proof fn lemma_stmts_view_push(s: Seq<Stmt>, e: Stmt)
    ensures
        stmts_view(s.push(e)) == stmts_view(s).push(e@),
{
    assert(s.push(e).drop_last() =~= s);
}

/// Lists of statements whose members have the same abstract forms have the
/// same abstract form.
pub proof fn lemma_stmts_view_same(a: Seq<Stmt>, b: Seq<Stmt>)
    requires
        a.len() == b.len(),
        forall|j: int| 0 <= j < a.len() ==> #[trigger] a[j]@ == b[j]@,
    ensures
        stmts_view(a) == stmts_view(b),
    decreases a.len(),
{
    if a.len() > 0 {
        lemma_stmts_view_same(a.drop_last(), b.drop_last());
        assert(a.last()@ == b[b.len() - 1]@);
    }
}

/// A copy of a list of statements.
pub fn duplicate_stmts(v: &Vec<Stmt>) -> (r: Vec<Stmt>)
    ensures
        stmts_view(r@) == stmts_view(v@),
        r@.len() == v@.len(),
    decreases v,
{
    let n = v.len();
    let mut out: Vec<Stmt> = Vec::new();
    let mut i: usize = 0;
    while i < n
        invariant
            n == v@.len(),
            i <= n,
            out@.len() == i,
            forall|j: int| 0 <= j < i ==> #[trigger] out@[j]@ == v@[j]@,
        decreases n - i,
    {
        proof {
            assert(decreases_to!(*v => v@));
            assert(decreases_to!(v@ => v@[i as int]));
        }
        let d = v[i].duplicate();
        out.push(d);
        i = i + 1;
    }
    proof {
        lemma_stmts_view_same(out@, v@);
    }
    out
}

impl Stmt {
    /// A copy of the statement.
    pub fn duplicate(&self) -> (r: Stmt)
        ensures
            r@ == self@,
        decreases self,
    {
        let ghost whole: Stmt = *self;
        match self {
            Stmt::Expr(e) => Stmt::Expr(e.duplicate()),
            Stmt::Print(e) => Stmt::Print(e.duplicate()),
            Stmt::Var { target, expr } => Stmt::Var { target: target.duplicate(), expr: Box::new(expr.duplicate()) },
            Stmt::Block(stmts) => {
                proof {
                    assert(decreases_to!(whole => whole->Block_0));
                }
                Stmt::Block(duplicate_stmts(stmts))
            },
            Stmt::Conditional { condition, true_branch, false_branch } => {
                proof {
                    assert(decreases_to!(whole => whole->Conditional_true_branch));
                }
                let t = duplicate_stmts(true_branch);
                let f = match false_branch {
                    Some(f) => {
                        proof {
                            assert(decreases_to!(whole => whole->Conditional_false_branch));
                            assert(decreases_to!(whole->Conditional_false_branch => *f));
                        }
                        Some(duplicate_stmts(f))
                    },
                    None => None,
                };
                Stmt::Conditional { condition: Box::new(condition.duplicate()), true_branch: t, false_branch: f }
            },
            Stmt::While { condition, stmts } => {
                proof {
                    assert(decreases_to!(whole => whole->While_stmts));
                }
                Stmt::While { condition: Box::new(condition.duplicate()), stmts: duplicate_stmts(stmts) }
            },
            Stmt::For { identifier, start, end, step, condition, stmts } => {
                proof {
                    assert(decreases_to!(whole => whole->For_stmts));
                }
                let st = Box::new(step.duplicate());
                Stmt::For {
                    identifier: identifier.duplicate(),
                    start: Box::new(start.duplicate()),
                    end: Box::new(end.duplicate()),
                    step: st,
                    condition: condition.duplicate(),
                    stmts: duplicate_stmts(stmts),
                }
            },
            Stmt::Function { identifier, params, body } => {
                proof {
                    assert(decreases_to!(whole => whole->Function_body));
                }
                Stmt::Function {
                    identifier: identifier.duplicate(),
                    params: crate::expr::duplicate_tokens(params),
                    body: duplicate_stmts(body),
                }
            },
            Stmt::Return(e) => Stmt::Return(e.duplicate()),
            Stmt::Break => Stmt::Break,
            Stmt::Continue => Stmt::Continue,
        }
    }
}

/// The `+` that a `for` loop steps its variable with.
pub open spec fn step_plus() -> Token {
    Token { token_type: TokenType::Plus, line: (0, 0) }
}

/// The block that a `for` loop stands for: the loop variable declared and
/// set to `start`, then a `while` loop on `identifier condition end` whose
/// body ends by adding `step` to the variable.
pub open spec fn spec_desugar_for(
    identifier: Token,
    start: SExpr,
    end: SExpr,
    step: SExpr,
    condition: Token,
    stmts: Seq<SStmt>,
) -> SStmt {
    SStmt::Block(
        seq![
            SStmt::Var { target: identifier, expr: start },
            SStmt::While {
                condition: SExpr::Binary {
                    left: Box::new(SExpr::Variable(identifier)),
                    operator: condition,
                    right: Box::new(end),
                },
                stmts: stmts.push(
                    SStmt::Expr(
                        SExpr::Assignment {
                            target: Box::new(SExpr::Variable(identifier)),
                            expr: Box::new(
                                SExpr::Binary {
                                    left: Box::new(SExpr::Variable(identifier)),
                                    operator: step_plus(),
                                    right: Box::new(step),
                                },
                            ),
                        },
                    ),
                ),
            },
        ],
    )
}

/// The step of a `for` loop written without one: the number `-1` when the
/// loop counts down to its end (`>`), else `1`, placed at the condition.
pub open spec fn spec_default_step(condition: Token) -> SExpr {
    SExpr::Literal(
        STokenType::Number(
            if condition.token_type is Greater {
                "-1"@
            } else {
                "1"@
            },
        ),
        condition.line,
    )
}

/// The literal step of a `for` loop written without one.
pub fn default_step(condition: &Token) -> (r: Expr)
    ensures
        r@ == spec_default_step(*condition),
{
    let text = if matches!(condition.token_type, TokenType::Greater) {
        let t = String::from_str("-1");
        proof {
            reveal_strlit("-1");
        }
        t
    } else {
        let t = String::from_str("1");
        proof {
            reveal_strlit("1");
        }
        t
    };
    Expr::Literal(Token::new(TokenType::Number(text), condition.line))
}

impl Stmt {
    /// The block that a `for` loop stands for; `None` for other statements.
    pub fn desugar_for(&self) -> (r: Option<Stmt>)
        ensures
            match self@ {
                SStmt::For { identifier, start, end, step, condition, stmts } => match r {
                    Some(d) => d@ == spec_desugar_for(identifier, start, end, step, condition, stmts),
                    None => false,
                },
                _ => r is None,
            },
    {
        match self {
            Stmt::For { identifier, start, end, step, condition, stmts } => {
                let step_e = step.duplicate();
                let ghost step_v = step_e@;
                let assign = Stmt::Expr(
                    Expr::Assignment {
                        target: Box::new(Expr::Variable(identifier.duplicate())),
                        expr: Box::new(
                            Expr::Binary {
                                left: Box::new(Expr::Variable(identifier.duplicate())),
                                operator: Token::new(TokenType::Plus, (0, 0)),
                                right: Box::new(step_e),
                            },
                        ),
                    },
                );
                let mut body = duplicate_stmts(stmts);
                let ghost before = body@;
                body.push(assign);
                proof {
                    lemma_stmts_view_push(before, assign);
                }
                let cond = Expr::Binary {
                    left: Box::new(Expr::Variable(identifier.duplicate())),
                    operator: condition.duplicate(),
                    right: Box::new(end.duplicate()),
                };
                let var_decl = Stmt::Var { target: identifier.duplicate(), expr: Box::new(start.duplicate()) };
                let while_stmt = Stmt::While { condition: Box::new(cond), stmts: body };
                let mut block: Vec<Stmt> = Vec::new();
                block.push(var_decl);
                block.push(while_stmt);
                let r = Stmt::Block(block);
                proof {
                    let s0: Seq<Stmt> = Seq::empty();
                    lemma_stmts_view_push(s0, var_decl);
                    lemma_stmts_view_push(s0.push(var_decl), while_stmt);
                    assert(block@ =~= s0.push(var_decl).push(while_stmt));
                    assert(stmts_view(block@) =~= seq![var_decl@, while_stmt@]);
                    reveal_with_fuel(expr_view, 3);
                    assert(r@ == spec_desugar_for(
                        *identifier,
                        (**start)@,
                        (**end)@,
                        step_v,
                        *condition,
                        stmts_view(stmts@),
                    ));
                }
                Some(r)
            },
            _ => None,
        }
    }
}

} // verus!
