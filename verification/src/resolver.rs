use vstd::prelude::*;

use crate::expr::{expr_view, Expr, SExpr};
use crate::stmt::{
    lemma_stmts_view_index, lemma_stmts_view_len, spec_desugar_for, step_plus, stmts_view, SStmt, Stmt,
};
use crate::strmap::StrMap;
use crate::tokens::{Token, TokenType};

verus! {

// ---------------------------------------------------------------------------
// The model
// ---------------------------------------------------------------------------

/// What the resolver knows at a point of the program: for each name it has
/// resolved, how many scopes out its binding lives; the scopes that are open,
/// innermost last, each mapping its names to whether they are defined yet;
/// and the function being resolved, if any.
pub struct RState {
    pub locals: Map<Seq<char>, usize>,
    pub scopes: Seq<Map<Seq<char>, bool>>,
    pub cur_fun: Option<Seq<char>>,
}

/// Mistakes in a program that the resolver refuses. Each stops the
/// resolution of the program: the resolver reports it as an error value,
/// where running on would be meaningless, in place of stopping the process.
#[derive(PartialEq, Eq, Structural, Clone, Copy, Debug)]
pub enum ResolveError {
    /// A name declared twice in one scope.
    AlreadyDeclared,
    /// A local variable read inside its own initializer.
    ReadInOwnInitializer,
    /// A `return` outside of any function.
    ReturnOutsideFunction,
    /// An exposed function, which the resolver has no rule for.
    ExposedFunction,
}

impl ResolveError {
    pub open spec fn spec_message(self) -> Seq<char> {
        match self {
            ResolveError::AlreadyDeclared => "A variable with this identifier already exists in this scope"@,
            ResolveError::ReadInOwnInitializer => "Can't read local variable before it's own initializer."@,
            ResolveError::ReturnOutsideFunction => "Return outside of function"@,
            ResolveError::ExposedFunction => "Exposed functions can't be resolved"@,
        }
    }

    /// The text that reports this mistake.
    pub fn message(&self) -> (r: String)
        ensures
            r@ == self.spec_message(),
    {
        match self {
            ResolveError::AlreadyDeclared => {
                let r = String::from_str("A variable with this identifier already exists in this scope");
                proof {
                    reveal_strlit("A variable with this identifier already exists in this scope");
                }
                r
            },
            ResolveError::ReadInOwnInitializer => {
                let r = String::from_str("Can't read local variable before it's own initializer.");
                proof {
                    reveal_strlit("Can't read local variable before it's own initializer.");
                }
                r
            },
            ResolveError::ReturnOutsideFunction => {
                let r = String::from_str("Return outside of function");
                proof {
                    reveal_strlit("Return outside of function");
                }
                r
            },
            ResolveError::ExposedFunction => {
                let r = String::from_str("Exposed functions can't be resolved");
                proof {
                    reveal_strlit("Exposed functions can't be resolved");
                }
                r
            },
        }
    }
}

/// What walking a part of a program gives: the resolver's state after it; or
/// the first mistake found, with the state the resolver was in when it found
/// it.
pub type Resolved = Result<RState, (RState, ResolveError)>;

/// The name a token binds, if it is an identifier.
pub open spec fn ident(t: Token) -> Option<Seq<char>> {
    match t.token_type {
        TokenType::Identifier(s) => Some(s@),
        _ => None,
    }
}

pub open spec fn spec_begin_scope(st: RState) -> RState {
    RState { scopes: st.scopes.push(Map::empty()), ..st }
}

pub open spec fn spec_end_scope(st: RState) -> RState {
    if st.scopes.len() == 0 {
        st
    } else {
        RState { scopes: st.scopes.drop_last(), ..st }
    }
}

/// `name` entered in the innermost scope as declared but not yet defined; a
/// second declaration in one scope is refused. Outside of every scope (at the
/// top level) nothing is recorded.
pub open spec fn spec_declare(st: RState, name: Seq<char>) -> Resolved {
    if st.scopes.len() == 0 {
        Ok(st)
    } else if st.scopes.last().contains_key(name) {
        Err((st, ResolveError::AlreadyDeclared))
    } else {
        Ok(RState { scopes: st.scopes.update(st.scopes.len() - 1, st.scopes.last().insert(name, false)), ..st })
    }
}

/// `name` marked as defined in the innermost scope.
pub open spec fn spec_define(st: RState, name: Seq<char>) -> RState {
    if st.scopes.len() == 0 {
        st
    } else {
        RState { scopes: st.scopes.update(st.scopes.len() - 1, st.scopes.last().insert(name, true)), ..st }
    }
}

/// How many scopes out from the innermost one the nearest scope that holds
/// `name` lies, counting from `depth` on.
pub open spec fn innermost_from(scopes: Seq<Map<Seq<char>, bool>>, name: Seq<char>, depth: nat) -> Option<nat>
    decreases scopes.len() - depth,
{
    if depth >= scopes.len() {
        None
    } else if scopes[scopes.len() - 1 - depth].contains_key(name) {
        Some(depth)
    } else {
        innermost_from(scopes, name, depth + 1)
    }
}

/// The depth of the nearest scope that holds `name` recorded for it; a name
/// that no open scope holds is left alone (it is a global).
pub open spec fn spec_resolve_local(st: RState, name: Seq<char>) -> RState {
    match innermost_from(st.scopes, name, 0) {
        Some(d) => RState { locals: st.locals.insert(name, d as usize), ..st },
        None => st,
    }
}

/// A variable read: refused inside its own initializer, else resolved.
pub open spec fn spec_resolve_variable(st: RState, t: Token) -> Resolved {
    match ident(t) {
        Some(n) => if st.scopes.len() > 0 && st.scopes.last().contains_key(n) && !st.scopes.last()[n] {
            Err((st, ResolveError::ReadInOwnInitializer))
        } else {
            Ok(spec_resolve_local(st, n))
        },
        None => Ok(st),
    }
}

/// Each identifier among `params` declared and defined, in order.
pub open spec fn spec_bind_params(st: RState, params: Seq<Token>) -> Resolved
    decreases params.len(),
{
    if params.len() == 0 {
        Ok(st)
    } else {
        let rest = params.subrange(1, params.len() as int);
        match ident(params[0]) {
            Some(n) => match spec_declare(st, n) {
                Ok(s1) => spec_bind_params(spec_define(s1, n), rest),
                Err(e) => Err(e),
            },
            None => spec_bind_params(st, rest),
        }
    }
}

// ---------------------------------------------------------------------------
// Expressions
// ---------------------------------------------------------------------------

/// The resolver's state after it has walked `e`, or the first mistake in it.
pub open spec fn spec_resolve_expr(st: RState, e: SExpr) -> Resolved
    decreases e,
{
    match e {
        SExpr::Assignment { target, expr } => match spec_resolve_expr(st, *expr) {
            Ok(s1) => Ok(
                match *target {
                    SExpr::Variable(t) => match ident(t) {
                        Some(n) => spec_resolve_local(s1, n),
                        None => s1,
                    },
                    _ => s1,
                },
            ),
            Err(err) => Err(err),
        },
        SExpr::Binary { left, right, .. } => match spec_resolve_expr(st, *left) {
            Ok(s1) => spec_resolve_expr(s1, *right),
            Err(err) => Err(err),
        },
        SExpr::Unary { right, .. } => spec_resolve_expr(st, *right),
        SExpr::Grouping(inner) => spec_resolve_expr(st, *inner),
        SExpr::Literal(..) => Ok(st),
        SExpr::Variable(t) => spec_resolve_variable(st, t),
        SExpr::ExposedFn(_) => Err((st, ResolveError::ExposedFunction)),
        SExpr::Conditional { condition, true_branch, false_branch } => match spec_resolve_expr(st, *condition) {
            Ok(s1) => match spec_resolve_expr(s1, *true_branch) {
                Ok(s2) => spec_resolve_expr(s2, *false_branch),
                Err(err) => Err(err),
            },
            Err(err) => Err(err),
        },
        SExpr::Call { callee, args, .. } => match spec_resolve_expr(st, *callee) {
            Ok(s1) => spec_resolve_exprs(s1, args),
            Err(err) => Err(err),
        },
        SExpr::Lambda { params, body } => match spec_bind_params(spec_begin_scope(st), params) {
            Ok(s1) => match spec_resolve_expr(s1, *body) {
                Ok(s2) => Ok(spec_end_scope(s2)),
                Err(err) => Err(err),
            },
            Err(err) => Err(err),
        },
    }
}

/// The expressions `es` resolved one after the other.
pub open spec fn spec_resolve_exprs(st: RState, es: Seq<SExpr>) -> Resolved
    decreases es,
{
    if es.len() == 0 {
        Ok(st)
    } else {
        match spec_resolve_expr(st, es[0]) {
            Ok(s1) => spec_resolve_exprs(s1, es.subrange(1, es.len() as int)),
            Err(err) => Err(err),
        }
    }
}

// ---------------------------------------------------------------------------
// Statements
// ---------------------------------------------------------------------------

/// A function body resolved in a scope of its own that holds its parameters,
/// with `func` as the function being resolved; the enclosing function is
/// restored afterwards.
pub open spec fn spec_resolve_function(
    st: RState,
    params: Seq<Token>,
    body: Seq<SStmt>,
    func: Option<Seq<char>>,
) -> Resolved
    decreases body, 2int,
{
    let inner = RState { cur_fun: func, ..st };
    match spec_bind_params(spec_begin_scope(inner), params) {
        Ok(s1) => match spec_resolve_stmts(s1, body) {
            Ok(s2) => Ok(RState { cur_fun: st.cur_fun, ..spec_end_scope(s2) }),
            Err(err) => Err(err),
        },
        Err(err) => Err(err),
    }
}

/// A `for` loop, resolved as the block it stands for: the loop variable
/// declared in a scope of its own and initialised with `start`; the condition
/// `identifier condition end`; the body; and the step `identifier :=
/// identifier + step`.
pub open spec fn spec_resolve_for(
    st: RState,
    identifier: Token,
    start: SExpr,
    end: SExpr,
    step: SExpr,
    stmts: Seq<SStmt>,
) -> Resolved
    decreases stmts, 2int,
{
    let s0 = spec_begin_scope(st);
    let declared = match ident(identifier) {
        Some(n) => match spec_declare(s0, n) {
            Ok(s1) => match spec_resolve_expr(s1, start) {
                Ok(s2) => Ok(spec_define(s2, n)),
                Err(err) => Err(err),
            },
            Err(err) => Err(err),
        },
        None => Ok(s0),
    };
    match declared {
        Ok(s3) => match spec_resolve_variable(s3, identifier) {
            Ok(s4) => match spec_resolve_expr(s4, end) {
                Ok(s5) => match spec_resolve_stmts(s5, stmts) {
                    Ok(s6) => match spec_resolve_variable(s6, identifier) {
                        Ok(s7) => {
                            match spec_resolve_expr(s7, step) {
                                Ok(s8) => Ok(
                                    spec_end_scope(
                                        match ident(identifier) {
                                            Some(n) => spec_resolve_local(s8, n),
                                            None => s8,
                                        },
                                    ),
                                ),
                                Err(err) => Err(err),
                            }
                        },
                        Err(err) => Err(err),
                    },
                    Err(err) => Err(err),
                },
                Err(err) => Err(err),
            },
            Err(err) => Err(err),
        },
        Err(err) => Err(err),
    }
}

/// The resolver's state after it has walked `s`, or the first mistake in it.
pub open spec fn spec_resolve_stmt(st: RState, s: SStmt) -> Resolved
    decreases s, 1int,
{
    match s {
        SStmt::Expr(e) => spec_resolve_expr(st, e),
        SStmt::Print(e) => spec_resolve_expr(st, e),
        SStmt::Var { target, expr } => match ident(target) {
            Some(n) => match spec_declare(st, n) {
                Ok(s1) => match spec_resolve_expr(s1, expr) {
                    Ok(s2) => Ok(spec_define(s2, n)),
                    Err(err) => Err(err),
                },
                Err(err) => Err(err),
            },
            None => Ok(st),
        },
        SStmt::Block(stmts) => match spec_resolve_stmts(spec_begin_scope(st), stmts) {
            Ok(s1) => Ok(spec_end_scope(s1)),
            Err(err) => Err(err),
        },
        SStmt::Conditional { condition, true_branch, false_branch } => match spec_resolve_expr(st, condition) {
            Ok(s1) => match spec_resolve_stmts(s1, true_branch) {
                Ok(s2) => match false_branch {
                    Some(f) => spec_resolve_stmts(s2, f),
                    None => Ok(s2),
                },
                Err(err) => Err(err),
            },
            Err(err) => Err(err),
        },
        SStmt::While { condition, stmts } => match spec_resolve_expr(st, condition) {
            Ok(s1) => spec_resolve_stmts(s1, stmts),
            Err(err) => Err(err),
        },
        SStmt::For { identifier, start, end, step, stmts, .. } => spec_resolve_for(
            st,
            identifier,
            start,
            end,
            step,
            stmts,
        ),
        SStmt::Function { identifier, params, body } => match ident(identifier) {
            Some(n) => match spec_declare(st, n) {
                Ok(s1) => spec_resolve_function(spec_define(s1, n), params, body, Some(n)),
                Err(err) => Err(err),
            },
            None => Ok(st),
        },
        SStmt::Return(e) => if st.cur_fun is None {
            Err((st, ResolveError::ReturnOutsideFunction))
        } else {
            spec_resolve_expr(st, e)
        },
        SStmt::Break | SStmt::Continue => Ok(st),
    }
}

/// The statements `ss` resolved one after the other.
pub open spec fn spec_resolve_stmts(st: RState, ss: Seq<SStmt>) -> Resolved
    decreases ss, 1int,
{
    if ss.len() == 0 {
        Ok(st)
    } else {
        match spec_resolve_stmt(st, ss[0]) {
            Ok(s1) => spec_resolve_stmts(s1, ss.subrange(1, ss.len() as int)),
            Err(err) => Err(err),
        }
    }
}

// ---------------------------------------------------------------------------
// The resolver
// ---------------------------------------------------------------------------

/// Whether a step of the resolver that returned `r` and left it in `after`
/// did what `expected` says: it ends in the expected state, and reports the
/// expected mistake if there is one.
pub open spec fn outcome(r: Result<(), ResolveError>, after: RState, expected: Resolved) -> bool {
    match expected {
        Ok(s) => r is Ok && after == s,
        Err((s, e)) => r == Err::<(), ResolveError>(e) && after == s,
    }
}

pub open spec fn scope_views(scopes: Seq<StrMap<bool>>) -> Seq<Map<Seq<char>, bool>> {
    scopes.map_values(|m: StrMap<bool>| m@)
}

pub open spec fn opt_chars(o: Option<String>) -> Option<Seq<char>> {
    match o {
        Some(s) => Some(s@),
        None => None,
    }
}

/// Computes, for each variable that the program reads or assigns, how many
/// scopes out from the current one its binding lives.
pub struct Resolver {
    locals: StrMap<usize>,
    scopes: Vec<StrMap<bool>>,
    cur_fun: Option<String>,
}

impl Resolver {
    pub closed spec fn state(&self) -> RState {
        RState { locals: self.locals@, scopes: scope_views(self.scopes@), cur_fun: opt_chars(self.cur_fun) }
    }

    pub closed spec fn wf(&self) -> bool {
        &&& self.locals.wf()
        &&& forall|i: int| 0 <= i < self.scopes@.len() ==> #[trigger] self.scopes@[i].wf()
    }
}

impl View for Resolver {
    type V = RState;

    open spec fn view(&self) -> RState {
        self.state()
    }
}

impl Default for Resolver {
    fn default() -> (r: Self)
        ensures
            r.wf(),
            r@ == (RState { locals: Map::empty(), scopes: Seq::empty(), cur_fun: None }),
    {
        Resolver::new()
    }
}

impl Resolver {
    /// A resolver at the top level, with no scope open and nothing resolved.
    pub fn new() -> (r: Self)
        ensures
            r.wf(),
            r@ == (RState { locals: Map::empty(), scopes: Seq::empty(), cur_fun: None }),
    {
        let r = Resolver { locals: StrMap::new(), scopes: Vec::new(), cur_fun: None };
        assert(scope_views(r.scopes@) =~= Seq::<Map<Seq<char>, bool>>::empty());
        r
    }

    pub fn begin_scope(&mut self)
        requires
            old(self).wf(),
        ensures
            final(self).wf(),
            final(self)@ == spec_begin_scope(old(self)@),
    {
        self.scopes.push(StrMap::new());
        assert(scope_views(self.scopes@) =~= scope_views(old(self).scopes@).push(Map::empty()));
    }

    pub fn end_scope(&mut self)
        requires
            old(self).wf(),
        ensures
            final(self).wf(),
            final(self)@ == spec_end_scope(old(self)@),
    {
        if self.scopes.len() > 0 {
            let _ = self.scopes.pop();
            assert(scope_views(self.scopes@) =~= scope_views(old(self).scopes@).drop_last());
        }
    }

    /// Declares `identifier` in the innermost scope; refused, with
    /// `AlreadyDeclared`, if that scope already has it (a second declaration
    /// in one scope stops the resolution of the program). A name declared in
    /// an outer scope may be declared again: it is shadowed.
    pub fn declare(&mut self, identifier: &str) -> (r: Result<(), ResolveError>)
        requires
            old(self).wf(),
        ensures
            final(self).wf(),
            outcome(r, final(self)@, spec_declare(old(self)@, identifier@)),
    {
        let n = self.scopes.len();
        if n == 0 {
            return Ok(());
        }
        if self.scopes[n - 1].contains_key(identifier) {
            return Err(ResolveError::AlreadyDeclared);
        }
        self.set_in_last(identifier, false);
        Ok(())
    }

    /// Marks `identifier` as defined in the innermost scope.
    pub fn define(&mut self, identifier: &str)
        requires
            old(self).wf(),
        ensures
            final(self).wf(),
            final(self)@ == spec_define(old(self)@, identifier@),
    {
        if self.scopes.len() > 0 {
            self.set_in_last(identifier, true);
        }
    }

    fn set_in_last(&mut self, identifier: &str, defined: bool)
        requires
            old(self).wf(),
            old(self).scopes@.len() > 0,
        ensures
            final(self).wf(),
            final(self)@ == (RState {
                scopes: old(self)@.scopes.update(
                    old(self)@.scopes.len() - 1,
                    old(self)@.scopes.last().insert(identifier@, defined),
                ),
                ..old(self)@
            }),
    {
        let ghost before = self.scopes@;
        let mut scope = self.scopes.pop().unwrap();
        assert(scope == before.last());
        scope.insert(identifier, defined);
        self.scopes.push(scope);
        assert(self.scopes@ == before.update(before.len() - 1, scope));
        assert(scope_views(self.scopes@) =~= scope_views(before).update(
            before.len() - 1,
            scope_views(before).last().insert(identifier@, defined),
        ));
    }

    /// Records for `identifier` the depth of the nearest open scope that
    /// holds it; a name that no open scope holds is left alone.
    pub fn resolve_local(&mut self, identifier: &str)
        requires
            old(self).wf(),
        ensures
            final(self).wf(),
            final(self)@ == spec_resolve_local(old(self)@, identifier@),
    {
        let n = self.scopes.len();
        let mut depth: usize = 0;
        while depth < n
            invariant
                n == self.scopes@.len(),
                depth <= n,
                self.wf(),
                *self == *old(self),
                innermost_from(self@.scopes, identifier@, 0) == innermost_from(self@.scopes, identifier@, depth as nat),
            decreases n - depth,
        {
            if self.scopes[n - 1 - depth].contains_key(identifier) {
                self.locals.insert(identifier, depth);
                return;
            }
            depth = depth + 1;
        }
    }

    /// The depths recorded so far.
    pub fn into_locals(self) -> (r: StrMap<usize>)
        requires
            self.wf(),
        ensures
            r.wf(),
            r@ == self@.locals,
    {
        self.locals
    }

    fn resolve_variable(&mut self, t: &Token) -> (r: Result<(), ResolveError>)
        requires
            old(self).wf(),
        ensures
            final(self).wf(),
            outcome(r, final(self)@, spec_resolve_variable(old(self)@, *t)),
    {
        match &t.token_type {
            TokenType::Identifier(s) => {
                let n = self.scopes.len();
                if n > 0 {
                    match self.scopes[n - 1].get(s.as_str()) {
                        Some(b) => {
                            if !*b {
                                return Err(ResolveError::ReadInOwnInitializer);
                            }
                        },
                        None => {},
                    }
                }
                self.resolve_local(s.as_str());
                Ok(())
            },
            _ => Ok(()),
        }
    }

    fn bind_params(&mut self, params: &Vec<Token>) -> (r: Result<(), ResolveError>)
        requires
            old(self).wf(),
        ensures
            final(self).wf(),
            outcome(r, final(self)@, spec_bind_params(old(self)@, params@)),
    {
        let n = params.len();
        let mut i: usize = 0;
        assert(params@.subrange(0, n as int) =~= params@);
        while i < n
            invariant
                n == params@.len(),
                i <= n,
                self.wf(),
                spec_bind_params(old(self)@, params@) == spec_bind_params(self@, params@.subrange(i as int, n as int)),
            decreases n - i,
        {
            let ghost sub = params@.subrange(i as int, n as int);
            assert(sub[0] == params@[i as int]);
            assert(sub.subrange(1, sub.len() as int) =~= params@.subrange(i + 1, n as int));
            match &params[i].token_type {
                TokenType::Identifier(s) => {
                    let d = self.declare(s.as_str());
                    if d.is_err() {
                        return d;
                    }
                    self.define(s.as_str());
                },
                _ => {},
            }
            i = i + 1;
        }
        Ok(())
    }

    /// Walks `expr`, recording the depth of each variable that it reads or
    /// assigns; refuses the first mistake found.
    pub fn resolve_expr(&mut self, expr: &Expr) -> (r: Result<(), ResolveError>)
        requires
            old(self).wf(),
        ensures
            final(self).wf(),
            outcome(r, final(self)@, spec_resolve_expr(old(self)@, expr@)),
        decreases expr,
    {
        match expr {
            Expr::Assignment { target, expr } => {
                let r = self.resolve_expr(expr);
                if r.is_err() {
                    return r;
                }
                proof {
                    reveal_with_fuel(expr_view, 2);
                }
                match &**target {
                    Expr::Variable(t) => match &t.token_type {
                        TokenType::Identifier(s) => {
                            self.resolve_local(s.as_str());
                        },
                        _ => {},
                    },
                    _ => {},
                }
                Ok(())
            },
            Expr::Binary { left, right, .. } => {
                let r = self.resolve_expr(left);
                if r.is_err() {
                    return r;
                }
                self.resolve_expr(right)
            },
            Expr::Unary { right, .. } => self.resolve_expr(right),
            Expr::Grouping(inner) => self.resolve_expr(inner),
            Expr::Literal(_) => Ok(()),
            Expr::Variable(t) => self.resolve_variable(t),
            Expr::ExposedFn(_) => Err(ResolveError::ExposedFunction),
            Expr::Conditional { condition, true_branch, false_branch } => {
                let r = self.resolve_expr(condition);
                if r.is_err() {
                    return r;
                }
                let r = self.resolve_expr(true_branch);
                if r.is_err() {
                    return r;
                }
                self.resolve_expr(false_branch)
            },
            Expr::Call { callee, paren, args } => {
                let r = self.resolve_expr(callee);
                if r.is_err() {
                    return r;
                }
                let n = args.len();
                let ghost es = crate::expr::exprs_view(args@);
                proof {
                    crate::expr::lemma_exprs_view_len(args@);
                    assert(es.subrange(0, n as int) =~= es);
                }
                let mut i: usize = 0;
                while i < n
                    invariant
                        *expr == (Expr::Call { callee: *callee, paren: *paren, args: *args }),
                        n == args@.len() == es.len(),
                        es == crate::expr::exprs_view(args@),
                        i <= n,
                        self.wf(),
                        spec_resolve_expr(old(self)@, expr@) == spec_resolve_exprs(
                            self@,
                            es.subrange(i as int, n as int),
                        ),
                    decreases n - i,
                {
                    proof {
                        crate::expr::lemma_exprs_view_index(args@, i as int);
                        let sub = es.subrange(i as int, n as int);
                        assert(sub[0] == es[i as int]);
                        assert(sub.subrange(1, sub.len() as int) =~= es.subrange(i + 1, n as int));
                        assert(decreases_to!(*expr => *args));
                        assert(decreases_to!(*args => args@));
                        assert(decreases_to!(args@ => args@[i as int]));
                    }
                    let r = self.resolve_expr(&args[i]);
                    if r.is_err() {
                        return r;
                    }
                    i = i + 1;
                }
                Ok(())
            },
            Expr::Lambda { params, body } => {
                self.begin_scope();
                let r = self.bind_params(params);
                if r.is_err() {
                    return r;
                }
                let r = self.resolve_expr(body);
                if r.is_err() {
                    return r;
                }
                self.end_scope();
                Ok(())
            },
        }
    }
}

impl Resolver {
    /// Walks `stmt`, recording the depth of each variable that it reads or
    /// assigns; refuses the first mistake found.
    pub fn resolve_stmt(&mut self, stmt: &Stmt) -> (r: Result<(), ResolveError>)
        requires
            old(self).wf(),
        ensures
            final(self).wf(),
            outcome(r, final(self)@, spec_resolve_stmt(old(self)@, stmt@)),
        decreases stmt, 1int,
    {
        match stmt {
            Stmt::Expr(e) => self.resolve_expr(e),
            Stmt::Print(e) => self.resolve_expr(e),
            Stmt::Var { target, expr } => match &target.token_type {
                TokenType::Identifier(s) => {
                    let r = self.declare(s.as_str());
                    if r.is_err() {
                        return r;
                    }
                    let r = self.resolve_expr(expr);
                    if r.is_err() {
                        return r;
                    }
                    self.define(s.as_str());
                    Ok(())
                },
                _ => Ok(()),
            },
            Stmt::Block(stmts) => {
                self.begin_scope();
                let r = self.resolve_list(stmts);
                if r.is_err() {
                    return r;
                }
                self.end_scope();
                Ok(())
            },
            Stmt::Conditional { condition, true_branch, false_branch } => {
                let r = self.resolve_expr(condition);
                if r.is_err() {
                    return r;
                }
                let r = self.resolve_list(true_branch);
                if r.is_err() {
                    return r;
                }
                match false_branch {
                    Some(f) => self.resolve_list(f),
                    None => Ok(()),
                }
            },
            Stmt::While { condition, stmts } => {
                let r = self.resolve_expr(condition);
                if r.is_err() {
                    return r;
                }
                self.resolve_list(stmts)
            },
            Stmt::For { identifier, start, end, step, stmts, .. } => self.resolve_for(
                identifier,
                start,
                end,
                step,
                stmts,
            ),
            Stmt::Function { identifier, params, body } => match &identifier.token_type {
                TokenType::Identifier(s) => {
                    let r = self.declare(s.as_str());
                    if r.is_err() {
                        return r;
                    }
                    self.define(s.as_str());
                    self.resolve_function(params, body, Some(s.clone()))
                },
                _ => Ok(()),
            },
            Stmt::Return(e) => {
                if self.cur_fun.is_none() {
                    return Err(ResolveError::ReturnOutsideFunction);
                }
                self.resolve_expr(e)
            },
            Stmt::Break | Stmt::Continue => Ok(()),
        }
    }

    fn resolve_list(&mut self, stmts: &Vec<Stmt>) -> (r: Result<(), ResolveError>)
        requires
            old(self).wf(),
        ensures
            final(self).wf(),
            outcome(r, final(self)@, spec_resolve_stmts(old(self)@, stmts_view(stmts@))),
        decreases stmts, 1int,
    {
        let n = stmts.len();
        let ghost ss = stmts_view(stmts@);
        proof {
            lemma_stmts_view_len(stmts@);
            assert(ss.subrange(0, n as int) =~= ss);
        }
        let mut i: usize = 0;
        while i < n
            invariant
                n == stmts@.len() == ss.len(),
                ss == stmts_view(stmts@),
                i <= n,
                self.wf(),
                spec_resolve_stmts(old(self)@, ss) == spec_resolve_stmts(self@, ss.subrange(i as int, n as int)),
            decreases n - i,
        {
            proof {
                lemma_stmts_view_index(stmts@, i as int);
                let sub = ss.subrange(i as int, n as int);
                assert(sub[0] == ss[i as int]);
                assert(sub.subrange(1, sub.len() as int) =~= ss.subrange(i + 1, n as int));
                assert(decreases_to!(*stmts => stmts@));
                assert(decreases_to!(stmts@ => stmts@[i as int]));
            }
            let r = self.resolve_stmt(&stmts[i]);
            if r.is_err() {
                return r;
            }
            i = i + 1;
        }
        Ok(())
    }

    /// Resolves a function body in a scope of its own that holds its
    /// parameters, with `func` as the function being resolved.
    fn resolve_function(&mut self, params: &Vec<Token>, body: &Vec<Stmt>, func: Option<String>) -> (r: Result<
        (),
        ResolveError,
    >)
        requires
            old(self).wf(),
        ensures
            final(self).wf(),
            outcome(r, final(self)@, spec_resolve_function(old(self)@, params@, stmts_view(body@), opt_chars(func))),
        decreases body, 2int,
    {
        let mut enclosing = func;
        std::mem::swap(&mut self.cur_fun, &mut enclosing);
        self.begin_scope();
        let r = self.bind_params(params);
        if r.is_err() {
            return r;
        }
        let r = self.resolve_list(body);
        if r.is_err() {
            return r;
        }
        self.end_scope();
        self.cur_fun = enclosing;
        Ok(())
    }

    fn resolve_for(
        &mut self,
        identifier: &Token,
        start: &Expr,
        end: &Expr,
        step: &Expr,
        stmts: &Vec<Stmt>,
    ) -> (r: Result<(), ResolveError>)
        requires
            old(self).wf(),
        ensures
            final(self).wf(),
            outcome(
                r,
                final(self)@,
                spec_resolve_for(
                    old(self)@,
                    *identifier,
                    start@,
                    end@,
                    step@,
                    stmts_view(stmts@),
                ),
            ),
        decreases stmts, 2int,
    {
        self.begin_scope();
        match &identifier.token_type {
            TokenType::Identifier(s) => {
                let r = self.declare(s.as_str());
                if r.is_err() {
                    return r;
                }
                let r = self.resolve_expr(start);
                if r.is_err() {
                    return r;
                }
                self.define(s.as_str());
            },
            _ => {},
        }
        let r = self.resolve_variable(identifier);
        if r.is_err() {
            return r;
        }
        let r = self.resolve_expr(end);
        if r.is_err() {
            return r;
        }
        let r = self.resolve_list(stmts);
        if r.is_err() {
            return r;
        }
        let r = self.resolve_variable(identifier);
        if r.is_err() {
            return r;
        }
        let r = self.resolve_expr(step);
        if r.is_err() {
            return r;
        }
        match &identifier.token_type {
            TokenType::Identifier(s) => {
                self.resolve_local(s.as_str());
            },
            _ => {},
        }
        self.end_scope();
        Ok(())
    }

    /// Walks `stmts` in order, recording the depth of each variable that
    /// they read or assign; refuses the first mistake found.
    pub fn resolve_stmts(&mut self, stmts: &[Stmt]) -> (r: Result<(), ResolveError>)
        requires
            old(self).wf(),
        ensures
            final(self).wf(),
            outcome(r, final(self)@, spec_resolve_stmts(old(self)@, stmts_view(stmts@))),
    {
        let n = stmts.len();
        let ghost ss = stmts_view(stmts@);
        proof {
            lemma_stmts_view_len(stmts@);
            assert(ss.subrange(0, n as int) =~= ss);
        }
        let mut i: usize = 0;
        while i < n
            invariant
                n == stmts@.len() == ss.len(),
                ss == stmts_view(stmts@),
                i <= n,
                self.wf(),
                spec_resolve_stmts(old(self)@, ss) == spec_resolve_stmts(self@, ss.subrange(i as int, n as int)),
            decreases n - i,
        {
            proof {
                lemma_stmts_view_index(stmts@, i as int);
                let sub = ss.subrange(i as int, n as int);
                assert(sub[0] == ss[i as int]);
                assert(sub.subrange(1, sub.len() as int) =~= ss.subrange(i + 1, n as int));
            }
            let r = self.resolve_stmt(&stmts[i]);
            if r.is_err() {
                return r;
            }
            i = i + 1;
        }
        Ok(())
    }
}

// ---------------------------------------------------------------------------
// Laws
// ---------------------------------------------------------------------------

/// A successful walk that leaves as many scopes open as it found, in the same
/// function.
pub open spec fn keeps_frame(st: RState, r: Resolved) -> bool {
    match r {
        Ok(s) => s.scopes.len() == st.scopes.len() && s.cur_fun == st.cur_fun,
        Err(_) => true,
    }
}

proof fn lemma_bind_params_frame(st: RState, params: Seq<Token>)
    ensures
        keeps_frame(st, spec_bind_params(st, params)),
    decreases params.len(),
{
    if params.len() > 0 {
        let rest = params.subrange(1, params.len() as int);
        match ident(params[0]) {
            Some(n) => match spec_declare(st, n) {
                Ok(s1) => lemma_bind_params_frame(spec_define(s1, n), rest),
                Err(_) => {},
            },
            None => lemma_bind_params_frame(st, rest),
        }
    }
}

proof fn lemma_expr_frame(st: RState, e: SExpr)
    ensures
        keeps_frame(st, spec_resolve_expr(st, e)),
    decreases e,
{
    match e {
        SExpr::Assignment { target, expr } => lemma_expr_frame(st, *expr),
        SExpr::Binary { left, right, .. } => {
            lemma_expr_frame(st, *left);
            if let Ok(s1) = spec_resolve_expr(st, *left) {
                lemma_expr_frame(s1, *right);
            }
        },
        SExpr::Unary { right, .. } => lemma_expr_frame(st, *right),
        SExpr::Grouping(inner) => lemma_expr_frame(st, *inner),
        SExpr::Conditional { condition, true_branch, false_branch } => {
            lemma_expr_frame(st, *condition);
            if let Ok(s1) = spec_resolve_expr(st, *condition) {
                lemma_expr_frame(s1, *true_branch);
                if let Ok(s2) = spec_resolve_expr(s1, *true_branch) {
                    lemma_expr_frame(s2, *false_branch);
                }
            }
        },
        SExpr::Call { callee, args, .. } => {
            lemma_expr_frame(st, *callee);
            if let Ok(s1) = spec_resolve_expr(st, *callee) {
                lemma_exprs_frame(s1, args);
            }
        },
        SExpr::Lambda { params, body } => {
            lemma_bind_params_frame(spec_begin_scope(st), params);
            if let Ok(s1) = spec_bind_params(spec_begin_scope(st), params) {
                lemma_expr_frame(s1, *body);
            }
        },
        _ => {},
    }
}

proof fn lemma_exprs_frame(st: RState, es: Seq<SExpr>)
    ensures
        keeps_frame(st, spec_resolve_exprs(st, es)),
    decreases es,
{
    if es.len() > 0 {
        lemma_expr_frame(st, es[0]);
        if let Ok(s1) = spec_resolve_expr(st, es[0]) {
            lemma_exprs_frame(s1, es.subrange(1, es.len() as int));
        }
    }
}

proof fn lemma_function_frame(st: RState, params: Seq<Token>, body: Seq<SStmt>, func: Option<Seq<char>>)
    ensures
        keeps_frame(st, spec_resolve_function(st, params, body, func)),
    decreases body, 2int,
{
    let inner = RState { cur_fun: func, ..st };
    lemma_bind_params_frame(spec_begin_scope(inner), params);
    if let Ok(s1) = spec_bind_params(spec_begin_scope(inner), params) {
        lemma_stmts_frame(s1, body);
    }
}

proof fn lemma_for_frame(
    st: RState,
    identifier: Token,
    start: SExpr,
    end: SExpr,
    step: SExpr,
    stmts: Seq<SStmt>,
)
    ensures
        keeps_frame(st, spec_resolve_for(st, identifier, start, end, step, stmts)),
    decreases stmts, 2int,
{
    let s0 = spec_begin_scope(st);
    let declared = match ident(identifier) {
        Some(n) => match spec_declare(s0, n) {
            Ok(s1) => {
                lemma_expr_frame(s1, start);
                match spec_resolve_expr(s1, start) {
                    Ok(s2) => Ok(spec_define(s2, n)),
                    Err(err) => Err(err),
                }
            },
            Err(err) => Err(err),
        },
        None => Ok(s0),
    };
    if let Ok(s3) = declared {
        if let Ok(s4) = spec_resolve_variable(s3, identifier) {
            lemma_expr_frame(s4, end);
            if let Ok(s5) = spec_resolve_expr(s4, end) {
                lemma_stmts_frame(s5, stmts);
                if let Ok(s6) = spec_resolve_stmts(s5, stmts) {
                    if let Ok(s7) = spec_resolve_variable(s6, identifier) {
                        lemma_expr_frame(s7, step);
                    }
                }
            }
        }
    }
}

proof fn lemma_stmt_frame(st: RState, s: SStmt)
    ensures
        keeps_frame(st, spec_resolve_stmt(st, s)),
    decreases s, 1int,
{
    match s {
        SStmt::Expr(e) => lemma_expr_frame(st, e),
        SStmt::Print(e) => lemma_expr_frame(st, e),
        SStmt::Var { target, expr } => {
            if let Some(n) = ident(target) {
                if let Ok(s1) = spec_declare(st, n) {
                    lemma_expr_frame(s1, expr);
                }
            }
        },
        SStmt::Block(stmts) => lemma_stmts_frame(spec_begin_scope(st), stmts),
        SStmt::Conditional { condition, true_branch, false_branch } => {
            lemma_expr_frame(st, condition);
            if let Ok(s1) = spec_resolve_expr(st, condition) {
                lemma_stmts_frame(s1, true_branch);
                if let Ok(s2) = spec_resolve_stmts(s1, true_branch) {
                    if let Some(f) = false_branch {
                        lemma_stmts_frame(s2, f);
                    }
                }
            }
        },
        SStmt::While { condition, stmts } => {
            lemma_expr_frame(st, condition);
            if let Ok(s1) = spec_resolve_expr(st, condition) {
                lemma_stmts_frame(s1, stmts);
            }
        },
        SStmt::For { identifier, start, end, step, stmts, .. } => lemma_for_frame(
            st,
            identifier,
            start,
            end,
            step,
            stmts,
        ),
        SStmt::Function { identifier, params, body } => {
            if let Some(n) = ident(identifier) {
                if let Ok(s1) = spec_declare(st, n) {
                    lemma_function_frame(spec_define(s1, n), params, body, Some(n));
                }
            }
        },
        SStmt::Return(e) => lemma_expr_frame(st, e),
        SStmt::Break | SStmt::Continue => {},
    }
}

proof fn lemma_stmts_frame(st: RState, ss: Seq<SStmt>)
    ensures
        keeps_frame(st, spec_resolve_stmts(st, ss)),
    decreases ss, 1int,
{
    if ss.len() > 0 {
        lemma_stmt_frame(st, ss[0]);
        if let Ok(s1) = spec_resolve_stmt(st, ss[0]) {
            lemma_stmts_frame(s1, ss.subrange(1, ss.len() as int));
        }
    }
}

/// Resolving statements that it accepts leaves the resolver with as many
/// scopes open as before, inside the same function: every scope that a
/// block, function, lambda or loop opens is closed again.
pub proof fn law_resolution_keeps_scope_depth(st: RState, ss: Seq<SStmt>)
    ensures
        spec_resolve_stmts(st, ss) matches Ok(s) ==> s.scopes.len() == st.scopes.len() && s.cur_fun == st.cur_fun,
{
    lemma_stmts_frame(st, ss);
}

/// Resolving an expression that it accepts leaves the resolver with as many
/// scopes open as before, inside the same function.
pub proof fn law_expression_keeps_scope_depth(st: RState, e: SExpr)
    ensures
        spec_resolve_expr(st, e) matches Ok(s) ==> s.scopes.len() == st.scopes.len() && s.cur_fun == st.cur_fun,
{
    lemma_expr_frame(st, e);
}

/// Closing a scope undoes opening one.
pub proof fn law_end_scope_undoes_begin_scope(st: RState)
    ensures
        spec_end_scope(spec_begin_scope(st)) == st,
{
    assert(spec_begin_scope(st).scopes.drop_last() =~= st.scopes);
}

/// Declaring or defining a name changes only the innermost open scope: the
/// number of open scopes, the scopes around the innermost one, the recorded
/// depths and the function being resolved stay as they were.
pub proof fn law_declarations_touch_only_the_innermost_scope(st: RState, name: Seq<char>)
    ensures
        spec_define(st, name).scopes.len() == st.scopes.len(),
        spec_define(st, name).scopes.drop_last() == st.scopes.drop_last(),
        spec_define(st, name).locals == st.locals,
        spec_define(st, name).cur_fun == st.cur_fun,
        spec_declare(st, name) matches Ok(s2) ==> s2.scopes.len() == st.scopes.len() && s2.scopes.drop_last()
            == st.scopes.drop_last() && s2.locals == st.locals && s2.cur_fun == st.cur_fun,
{
    if st.scopes.len() > 0 {
        assert(spec_define(st, name).scopes.drop_last() =~= st.scopes.drop_last());
        if let Ok(s2) = spec_declare(st, name) {
            assert(s2.scopes.drop_last() =~= st.scopes.drop_last());
        }
    }
}

/// Closing a scope brings the open scopes back to what they were before it
/// was opened, whatever was declared or defined in it meanwhile: from any
/// state with one scope more than `st` and `st`'s scopes around it, closing
/// the innermost scope leaves exactly `st`'s scopes, and changes nothing else.
pub proof fn law_end_scope_drops_what_the_scope_held(st: RState, mid: RState)
    requires
        mid.scopes.len() == st.scopes.len() + 1,
        mid.scopes.drop_last() == st.scopes,
    ensures
        spec_end_scope(mid) == (RState { scopes: st.scopes, ..mid }),
        spec_begin_scope(st).scopes.drop_last() == st.scopes,
        spec_begin_scope(st).scopes.len() == st.scopes.len() + 1,
{
    assert(spec_begin_scope(st).scopes.drop_last() =~= st.scopes);
}

/// The depth that resolving a name records is that of the innermost open
/// scope holding the name: that scope holds it and no scope nearer does.
/// A name that no open scope holds is recorded nowhere anew.
pub proof fn law_resolve_local_is_innermost(st: RState, name: Seq<char>)
    requires
        st.scopes.len() <= usize::MAX,
    ensures
        (exists|d: int| 0 <= d < st.scopes.len() && #[trigger] st.scopes[st.scopes.len() - 1 - d].contains_key(name))
            ==> {
            let d = spec_resolve_local(st, name).locals[name] as int;
            &&& spec_resolve_local(st, name).locals.contains_key(name)
            &&& 0 <= d < st.scopes.len()
            &&& st.scopes[st.scopes.len() - 1 - d].contains_key(name)
            &&& forall|k: int| 0 <= k < d ==> !#[trigger] st.scopes[st.scopes.len() - 1 - k].contains_key(name)
        },
        (forall|d: int| 0 <= d < st.scopes.len() ==> !#[trigger] st.scopes[st.scopes.len() - 1 - d].contains_key(name))
            ==> spec_resolve_local(st, name) == st,
        spec_resolve_local(st, name).scopes == st.scopes,
        spec_resolve_local(st, name).cur_fun == st.cur_fun,
{
    lemma_innermost_from(st.scopes, name, 0);
}

proof fn lemma_innermost_from(scopes: Seq<Map<Seq<char>, bool>>, name: Seq<char>, depth: nat)
    requires
        forall|k: int| 0 <= k < depth && k < scopes.len() ==> !#[trigger] scopes[scopes.len() - 1 - k].contains_key(name),
    ensures
        match innermost_from(scopes, name, depth) {
            Some(d) => depth <= d < scopes.len() && scopes[scopes.len() - 1 - d].contains_key(name) && forall|k: int|
                0 <= k < d ==> !#[trigger] scopes[scopes.len() - 1 - k].contains_key(name),
            None => forall|k: int| 0 <= k < scopes.len() ==> !#[trigger] scopes[scopes.len() - 1 - k].contains_key(name),
        },
    decreases scopes.len() - depth,
{
    if depth < scopes.len() && !scopes[scopes.len() - 1 - depth].contains_key(name) {
        lemma_innermost_from(scopes, name, depth + 1);
    }
}

proof fn lemma_resolve_stmts_push(st: RState, a: Seq<SStmt>, x: SStmt)
    ensures
        spec_resolve_stmts(st, a.push(x)) == match spec_resolve_stmts(st, a) {
            Ok(s1) => spec_resolve_stmt(s1, x),
            Err(err) => Err(err),
        },
    decreases a.len(),
{
    let ax = a.push(x);
    if a.len() == 0 {
        assert(ax.subrange(1, ax.len() as int) =~= Seq::<SStmt>::empty());
        assert(ax[0] == x);
        reveal_with_fuel(spec_resolve_stmts, 2);
    } else {
        assert(ax[0] == a[0]);
        assert(ax.subrange(1, ax.len() as int) =~= a.subrange(1, a.len() as int).push(x));
        if let Ok(s1) = spec_resolve_stmt(st, a[0]) {
            lemma_resolve_stmts_push(s1, a.subrange(1, a.len() as int), x);
        }
    }
}

/// A `for` loop is resolved as the block that it stands for: the same state
/// comes out, or the same mistake.
pub proof fn law_for_resolves_as_its_block(
    st: RState,
    identifier: Token,
    start: SExpr,
    end: SExpr,
    step_e: SExpr,
    condition: Token,
    stmts: Seq<SStmt>,
)
    ensures
        spec_resolve_stmt(st, SStmt::For { identifier, start, end, step: step_e, condition, stmts }) == spec_resolve_stmt(
            st,
            spec_desugar_for(identifier, start, end, step_e, condition, stmts),
        ),
{
    let var_decl = SStmt::Var { target: identifier, expr: start };
    let assign = SStmt::Expr(
        SExpr::Assignment {
            target: Box::new(SExpr::Variable(identifier)),
            expr: Box::new(
                SExpr::Binary {
                    left: Box::new(SExpr::Variable(identifier)),
                    operator: step_plus(),
                    right: Box::new(step_e),
                },
            ),
        },
    );
    let while_stmt = SStmt::While {
        condition: SExpr::Binary {
            left: Box::new(SExpr::Variable(identifier)),
            operator: condition,
            right: Box::new(end),
        },
        stmts: stmts.push(assign),
    };
    let both = seq![var_decl, while_stmt];
    assert(spec_desugar_for(identifier, start, end, step_e, condition, stmts) == SStmt::Block(both));
    let s0 = spec_begin_scope(st);
    assert(both[0] == var_decl);
    assert(both.subrange(1, 2) =~= seq![while_stmt]);
    assert(seq![while_stmt][0] == while_stmt);
    assert(seq![while_stmt].subrange(1, 1) =~= Seq::<SStmt>::empty());
    let cond_e = SExpr::Binary {
        left: Box::new(SExpr::Variable(identifier)),
        operator: condition,
        right: Box::new(end),
    };
    let step_sum = SExpr::Binary {
        left: Box::new(SExpr::Variable(identifier)),
        operator: step_plus(),
        right: Box::new(step_e),
    };
    assert(spec_resolve_stmts(s0, both) == match spec_resolve_stmt(s0, var_decl) {
        Ok(s3) => spec_resolve_stmts(s3, seq![while_stmt]),
        Err(err) => Err(err),
    });
    if let Ok(s3) = spec_resolve_stmt(s0, var_decl) {
        assert(spec_resolve_stmts(s3, seq![while_stmt]) == match spec_resolve_stmt(s3, while_stmt) {
            Ok(s) => spec_resolve_stmts(s, Seq::empty()),
            Err(err) => Err(err),
        });
        assert(spec_resolve_expr(s3, cond_e) == match spec_resolve_variable(s3, identifier) {
            Ok(s4) => spec_resolve_expr(s4, end),
            Err(err) => Err(err),
        }) by {
            reveal_with_fuel(spec_resolve_expr, 2);
        }
        if let Ok(s4) = spec_resolve_variable(s3, identifier) {
            if let Ok(s5) = spec_resolve_expr(s4, end) {
                lemma_resolve_stmts_push(s5, stmts, assign);
                if let Ok(s6) = spec_resolve_stmts(s5, stmts) {
                    assert(spec_resolve_expr(s6, step_sum) == match spec_resolve_variable(s6, identifier) {
                        Ok(s7) => spec_resolve_expr(s7, step_e),
                        Err(err) => Err(err),
                    }) by {
                        reveal_with_fuel(spec_resolve_expr, 2);
                    }
                }
            }
        }
    }
}


// ---------------------------------------------------------------------------
// Every read of an expression resolved
// ---------------------------------------------------------------------------

/// The names an expression reads or assigns, outside the bodies of lambdas.
pub open spec fn reads(e: SExpr) -> Set<Seq<char>>
    decreases e,
{
    match e {
        SExpr::Assignment { target, expr } => reads(*expr).union(
            match *target {
                SExpr::Variable(t) => match ident(t) {
                    Some(n) => set![n],
                    None => Set::empty(),
                },
                _ => Set::empty(),
            },
        ),
        SExpr::Binary { left, right, .. } => reads(*left).union(reads(*right)),
        SExpr::Unary { right, .. } => reads(*right),
        SExpr::Grouping(inner) => reads(*inner),
        SExpr::Literal(..) => Set::empty(),
        SExpr::Variable(t) => match ident(t) {
            Some(n) => set![n],
            None => Set::empty(),
        },
        SExpr::ExposedFn(_) => Set::empty(),
        SExpr::Conditional { condition, true_branch, false_branch } => reads(*condition).union(
            reads(*true_branch),
        ).union(reads(*false_branch)),
        SExpr::Call { callee, args, .. } => reads(*callee).union(reads_all(args)),
        SExpr::Lambda { .. } => Set::empty(),
    }
}

/// The names a list of expressions reads or assigns, outside lambdas.
pub open spec fn reads_all(es: Seq<SExpr>) -> Set<Seq<char>>
    decreases es,
{
    if es.len() == 0 {
        Set::empty()
    } else {
        reads(es[0]).union(reads_all(es.subrange(1, es.len() as int)))
    }
}

/// Whether no lambda stands anywhere in the expression.
pub open spec fn no_lambda(e: SExpr) -> bool
    decreases e,
{
    match e {
        SExpr::Assignment { target, expr } => no_lambda(*target) && no_lambda(*expr),
        SExpr::Binary { left, right, .. } => no_lambda(*left) && no_lambda(*right),
        SExpr::Unary { right, .. } => no_lambda(*right),
        SExpr::Grouping(inner) => no_lambda(*inner),
        SExpr::Conditional { condition, true_branch, false_branch } => no_lambda(*condition) && no_lambda(
            *true_branch,
        ) && no_lambda(*false_branch),
        SExpr::Call { callee, args, .. } => no_lambda(*callee) && no_lambda_all(args),
        SExpr::Lambda { .. } => false,
        _ => true,
    }
}

/// Whether no lambda stands anywhere in the list of expressions.
pub open spec fn no_lambda_all(es: Seq<SExpr>) -> bool
    decreases es,
{
    if es.len() == 0 {
        true
    } else {
        no_lambda(es[0]) && no_lambda_all(es.subrange(1, es.len() as int))
    }
}

/// Whether `name` has the recorded depth `d` in `st`.
pub open spec fn recorded_at(st: RState, name: Seq<char>, d: nat) -> bool {
    st.locals.contains_key(name) && st.locals[name] == d as usize
}

proof fn lemma_resolve_local_records(st: RState, m: Seq<char>, n: Seq<char>)
    ensures
        spec_resolve_local(st, m).scopes == st.scopes,
        spec_resolve_local(st, m).cur_fun == st.cur_fun,
        innermost_from(st.scopes, n, 0) matches Some(d) ==> ((m == n || recorded_at(st, n, d)) ==> recorded_at(
            spec_resolve_local(st, m),
            n,
            d,
        )),
{
}

proof fn lemma_resolve_expr_records(st: RState, e: SExpr, n: Seq<char>)
    requires
        no_lambda(e),
    ensures
        spec_resolve_expr(st, e) matches Ok(s2) ==> {
            &&& s2.scopes == st.scopes
            &&& s2.cur_fun == st.cur_fun
            &&& innermost_from(st.scopes, n, 0) matches Some(d) ==> ((reads(e).contains(n) || recorded_at(st, n, d))
                ==> recorded_at(s2, n, d))
        },
    decreases e,
{
    match e {
        SExpr::Assignment { target, expr } => {
            lemma_resolve_expr_records(st, *expr, n);
            if let Ok(s1) = spec_resolve_expr(st, *expr) {
                if let SExpr::Variable(t) = *target {
                    if let Some(m) = ident(t) {
                        lemma_resolve_local_records(s1, m, n);
                    }
                }
            }
        },
        SExpr::Binary { left, right, .. } => {
            lemma_resolve_expr_records(st, *left, n);
            if let Ok(s1) = spec_resolve_expr(st, *left) {
                lemma_resolve_expr_records(s1, *right, n);
            }
        },
        SExpr::Unary { right, .. } => lemma_resolve_expr_records(st, *right, n),
        SExpr::Grouping(inner) => lemma_resolve_expr_records(st, *inner, n),
        SExpr::Variable(t) => {
            if let Some(m) = ident(t) {
                lemma_resolve_local_records(st, m, n);
            }
        },
        SExpr::Conditional { condition, true_branch, false_branch } => {
            lemma_resolve_expr_records(st, *condition, n);
            if let Ok(s1) = spec_resolve_expr(st, *condition) {
                lemma_resolve_expr_records(s1, *true_branch, n);
                if let Ok(s2) = spec_resolve_expr(s1, *true_branch) {
                    lemma_resolve_expr_records(s2, *false_branch, n);
                }
            }
        },
        SExpr::Call { callee, args, .. } => {
            lemma_resolve_expr_records(st, *callee, n);
            if let Ok(s1) = spec_resolve_expr(st, *callee) {
                lemma_resolve_exprs_records(s1, args, n);
            }
        },
        _ => {},
    }
}

proof fn lemma_resolve_exprs_records(st: RState, es: Seq<SExpr>, n: Seq<char>)
    requires
        no_lambda_all(es),
    ensures
        spec_resolve_exprs(st, es) matches Ok(s2) ==> {
            &&& s2.scopes == st.scopes
            &&& s2.cur_fun == st.cur_fun
            &&& innermost_from(st.scopes, n, 0) matches Some(d) ==> ((reads_all(es).contains(n) || recorded_at(
                st,
                n,
                d,
            )) ==> recorded_at(s2, n, d))
        },
    decreases es,
{
    if es.len() > 0 {
        lemma_resolve_expr_records(st, es[0], n);
        if let Ok(s1) = spec_resolve_expr(st, es[0]) {
            lemma_resolve_exprs_records(s1, es.subrange(1, es.len() as int), n);
        }
    }
}

proof fn lemma_innermost_is(scopes: Seq<Map<Seq<char>, bool>>, n: Seq<char>, d: nat, j: nat)
    requires
        j <= d < scopes.len(),
        scopes[scopes.len() - 1 - d].contains_key(n),
        forall|k: int| 0 <= k < d ==> !(#[trigger] scopes[scopes.len() - 1 - k]).contains_key(n),
    ensures
        innermost_from(scopes, n, j) == Some(d),
    decreases d - j,
{
    if j < d {
        assert(!scopes[scopes.len() - 1 - j].contains_key(n));
        lemma_innermost_is(scopes, n, d, j + 1);
    }
}

/// Resolving an expression (one without lambdas, whose parameters open
/// scopes of their own) records, for every name it reads or assigns anywhere
/// (every operand, every argument, both branches of a conditional), the depth
/// of the innermost open scope that holds the name, counting the innermost
/// scope as depth 0; and it opens and closes no scope.
pub proof fn law_every_read_gets_its_innermost_depth(st: RState, e: SExpr, n: Seq<char>, d: nat)
    requires
        no_lambda(e),
        reads(e).contains(n),
        d < st.scopes.len(),
        st.scopes[st.scopes.len() - 1 - d].contains_key(n),
        forall|k: int| 0 <= k < d ==> !(#[trigger] st.scopes[st.scopes.len() - 1 - k]).contains_key(n),
    ensures
        spec_resolve_expr(st, e) matches Ok(s2) ==> s2.scopes == st.scopes && s2.locals.contains_key(n)
            && s2.locals[n] == d as usize,
{
    lemma_innermost_is(st.scopes, n, d, 0);
    lemma_resolve_expr_records(st, e, n);
}

} // verus!
