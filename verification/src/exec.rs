use vstd::prelude::*;

use crate::enviroment::{law_later_scope_is_unseen, lemma_push_scope, ScopeTree};
use crate::expr::{Expr, SExpr};
use crate::interpreter::{Interpreter, Signal};
use crate::resolver::ident;
use crate::stmt::{duplicate_stmts, lemma_stmts_view_index, spec_desugar_for, stmts_view, SStmt, Stmt};
use crate::tokens::TokenType;

verus! {

// ---------------------------------------------------------------------------
// The model
// ---------------------------------------------------------------------------
//
// Statements run as a machine that the host drives. Each step either moves
// through the statements itself (opening a block's scope, entering a loop's
// body, leaving on `break`, going round on `continue`) or asks the host for
// an expression's value, which the host hands back with the next step
// together with its truthiness.

/// What a list of statements being run is: a plain list (a program, a block,
/// a branch of a conditional, a function body), or the body of a loop whose
/// condition is checked each time the body ends, with the index in the body
/// where `continue` goes on (past the end for a `while` loop, the step for a
/// `for` loop).
pub enum SFrameKind {
    Plain,
    Loop(SExpr, nat),
}

/// A list of statements being run, the index of the next one, and the scope
/// they run in.
pub struct SFrame {
    pub stmts: Seq<SStmt>,
    pub next: nat,
    pub env: usize,
    pub kind: SFrameKind,
}

/// What the value the host hands back is for: nothing; a statement that only
/// wanted it evaluated (or printed); the variable or function `name` to define
/// in scope `env`; choosing between the branches of a conditional run in
/// `env`; a loop's condition; or a `return`.
pub enum SPending {
    Nothing,
    Discard,
    Define(usize, Seq<char>),
    Branch(usize, Seq<SStmt>, Option<Seq<SStmt>>),
    LoopCondition,
    Return,
}

/// The lists being run, innermost last, and what the awaited value is for.
pub struct SExecState {
    pub frames: Seq<SFrame>,
    pub pending: SPending,
}

/// What the host hands to a step: nothing, or the value it computed for the
/// last request and whether that value counts as true.
pub enum ExecEvent<V> {
    Start,
    Evaluated(V, bool),
}

/// The abstract form of what a step asks of the host.
pub enum SExecAction<V> {
    Next,
    Eval(usize, SExpr),
    Print(usize, SExpr),
    Function(usize, SStmt),
    Done(Signal<V>),
}

/// Whether every scope that the state refers to exists and every index of a
/// frame (the next statement, where `continue` leads) lies within its list.
pub open spec fn exec_inv<V>(st: SExecState, tree: ScopeTree<V>) -> bool {
    &&& forall|i: int|
        0 <= i < st.frames.len() ==> (#[trigger] st.frames[i]).env < tree.len() && st.frames[i].next
            <= st.frames[i].stmts.len() && (st.frames[i].kind matches SFrameKind::Loop(_, r) ==> r
            <= st.frames[i].stmts.len())
    &&& match st.pending {
        SPending::Define(env, _) => env < tree.len(),
        SPending::Branch(env, _, _) => env < tree.len(),
        _ => true,
    }
}

/// The frames left after `break`: up to and without the innermost loop; `None`
/// where no loop is being run.
pub open spec fn unwind_break(frames: Seq<SFrame>) -> Option<Seq<SFrame>>
    decreases frames.len(),
{
    if frames.len() == 0 {
        None
    } else if frames.last().kind is Loop {
        Some(frames.drop_last())
    } else {
        unwind_break(frames.drop_last())
    }
}

/// The frames left after `continue`: up to and with the innermost loop, whose
/// body goes on where `continue` leads; `None` where no loop is being run.
pub open spec fn unwind_continue(frames: Seq<SFrame>) -> Option<Seq<SFrame>>
    decreases frames.len(),
{
    if frames.len() == 0 {
        None
    } else {
        match frames.last().kind {
            SFrameKind::Loop(_, r) => Some(frames.update(frames.len() - 1, SFrame { next: r, ..frames.last() })),
            SFrameKind::Plain => unwind_continue(frames.drop_last()),
        }
    }
}

/// The awaited value put to use: a variable or function defined; a branch of
/// a conditional entered; a loop's body run again, or the loop left; or the
/// run ended by `return`. Nothing is awaited afterwards.
pub open spec fn spec_apply<V>(tree: ScopeTree<V>, st: SExecState, ev: ExecEvent<V>) -> (
    ScopeTree<V>,
    SExecState,
    Option<Signal<V>>,
) {
    let idle = SExecState { frames: st.frames, pending: SPending::Nothing };
    match ev {
        ExecEvent::Start => (tree, idle, None),
        ExecEvent::Evaluated(v, truthy) => match st.pending {
            SPending::Define(env, name) => (tree.define(env as int, name, v), idle, None),
            SPending::Branch(env, t, f) => {
                let chosen = if truthy {
                    Some(t)
                } else {
                    f
                };
                match chosen {
                    Some(ss) => (
                        tree,
                        SExecState {
                            frames: st.frames.push(SFrame { stmts: ss, next: 0, env, kind: SFrameKind::Plain }),
                            pending: SPending::Nothing,
                        },
                        None,
                    ),
                    None => (tree, idle, None),
                }
            },
            SPending::LoopCondition => if st.frames.len() == 0 {
                (tree, idle, None)
            } else if truthy {
                (
                    tree,
                    SExecState {
                        frames: st.frames.update(st.frames.len() - 1, SFrame { next: 0, ..st.frames.last() }),
                        pending: SPending::Nothing,
                    },
                    None,
                )
            } else {
                (tree, SExecState { frames: st.frames.drop_last(), pending: SPending::Nothing }, None)
            },
            SPending::Return => (
                tree,
                SExecState { frames: Seq::empty(), pending: SPending::Nothing },
                Some(Signal::Return(v)),
            ),
            _ => (tree, idle, None),
        },
    }
}

/// One move through the statements, or one request to the host:
/// - with nothing left to run, the run is done;
/// - at the end of a loop's body its condition is asked for, at the end of
///   any other list the list is left;
/// - an expression statement, a `print` or a `return` asks for its
///   expression; a declaration for its initial value; a function declaration
///   for the function's value; a conditional for its condition;
/// - a block opens a scope nested in the current one and runs there, a `for`
///   loop runs the block it stands for in such a scope, a `while` loop starts
///   by asking for its condition, `break` leaves the innermost loop, and
///   `continue` goes on with its next round (each ends the run when no loop
///   is being run).
pub open spec fn spec_advance<V>(tree: ScopeTree<V>, st: SExecState) -> (ScopeTree<V>, SExecState, SExecAction<V>) {
    if st.frames.len() == 0 {
        (tree, st, SExecAction::Done(Signal::Normal))
    } else {
        let top = st.frames.last();
        let env = top.env;
        if top.next < top.stmts.len() {
            let frames1 = st.frames.update(st.frames.len() - 1, SFrame { next: top.next + 1, ..top });
            let wait = |p: SPending| SExecState { frames: frames1, pending: p };
            let go_on = SExecState { frames: frames1, pending: SPending::Nothing };
            match top.stmts[top.next as int] {
                SStmt::Expr(e) => (tree, wait(SPending::Discard), SExecAction::Eval(env, e)),
                SStmt::Print(e) => (tree, wait(SPending::Discard), SExecAction::Print(env, e)),
                SStmt::Var { target, expr } => match ident(target) {
                    Some(n) => (tree, wait(SPending::Define(env, n)), SExecAction::Eval(env, expr)),
                    None => (tree, go_on, SExecAction::Next),
                },
                SStmt::Block(ss) => (
                    tree.push_scope(Some(env)),
                    SExecState {
                        frames: frames1.push(
                            SFrame { stmts: ss, next: 0, env: tree.len() as usize, kind: SFrameKind::Plain },
                        ),
                        pending: SPending::Nothing,
                    },
                    SExecAction::Next,
                ),
                SStmt::Conditional { condition, true_branch, false_branch } => (
                    tree,
                    wait(SPending::Branch(env, true_branch, false_branch)),
                    SExecAction::Eval(env, condition),
                ),
                SStmt::While { condition, stmts } => (
                    tree,
                    SExecState {
                        frames: frames1.push(
                            SFrame { stmts, next: stmts.len(), env, kind: SFrameKind::Loop(condition, stmts.len()) },
                        ),
                        pending: SPending::Nothing,
                    },
                    SExecAction::Next,
                ),
                SStmt::For { identifier, start, end, step, condition, stmts } => for_result(
                    tree,
                    frames1,
                    env,
                    spec_desugar_for(identifier, start, end, step, condition, stmts),
                ),
                SStmt::Function { identifier, params, body } => match ident(identifier) {
                    Some(n) => (
                        tree,
                        wait(SPending::Define(env, n)),
                        SExecAction::Function(env, SStmt::Function { identifier, params, body }),
                    ),
                    None => (tree, go_on, SExecAction::Next),
                },
                SStmt::Return(e) => (tree, wait(SPending::Return), SExecAction::Eval(env, e)),
                SStmt::Break => break_result(tree, frames1),
                SStmt::Continue => continue_result(tree, frames1),
            }
        } else {
            match top.kind {
                SFrameKind::Loop(c, _) => (
                    tree,
                    SExecState { frames: st.frames, pending: SPending::LoopCondition },
                    SExecAction::Eval(env, c),
                ),
                SFrameKind::Plain => (
                    tree,
                    SExecState { frames: st.frames.drop_last(), pending: SPending::Nothing },
                    SExecAction::Next,
                ),
            }
        }
    }
}

/// What `break` leaves when the frames, the current one moved past the
/// `break`, are `frames`.
pub open spec fn break_result<V>(tree: ScopeTree<V>, frames: Seq<SFrame>) -> (ScopeTree<V>, SExecState, SExecAction<V>) {
    match unwind_break(frames) {
        Some(fs) => (tree, SExecState { frames: fs, pending: SPending::Nothing }, SExecAction::Next),
        None => (
            tree,
            SExecState { frames: Seq::empty(), pending: SPending::Nothing },
            SExecAction::Done(Signal::Break),
        ),
    }
}

/// What `continue` leaves when the frames, the current one moved past the
/// `continue`, are `frames`.
pub open spec fn continue_result<V>(tree: ScopeTree<V>, frames: Seq<SFrame>) -> (ScopeTree<V>, SExecState, SExecAction<V>) {
    match unwind_continue(frames) {
        Some(fs) => (tree, SExecState { frames: fs, pending: SPending::Nothing }, SExecAction::Next),
        None => (
            tree,
            SExecState { frames: Seq::empty(), pending: SPending::Nothing },
            SExecAction::Done(Signal::Continue),
        ),
    }
}

/// What a `for` loop standing in scope `env` starts, the frames being
/// `frames` and the block it stands for `block` (its variable's declaration,
/// then a `while` loop whose body ends with the step): a scope of its own,
/// nested in `env`, in which the loop waits for its condition to be asked
/// for and, before that, the declaration runs.
pub open spec fn for_result<V>(tree: ScopeTree<V>, frames: Seq<SFrame>, env: usize, block: SStmt) -> (
    ScopeTree<V>,
    SExecState,
    SExecAction<V>,
) {
    let scope = tree.len() as usize;
    match block {
        SStmt::Block(ss) => match ss[1] {
            SStmt::While { condition, stmts } => (
                tree.push_scope(Some(env)),
                SExecState {
                    frames: frames.push(
                        SFrame {
                            stmts,
                            next: stmts.len(),
                            env: scope,
                            kind: SFrameKind::Loop(condition, (stmts.len() - 1) as nat),
                        },
                    ).push(SFrame { stmts: seq![ss[0]], next: 0, env: scope, kind: SFrameKind::Plain }),
                    pending: SPending::Nothing,
                },
                SExecAction::Next,
            ),
            _ => (tree, SExecState { frames, pending: SPending::Nothing }, SExecAction::Next),
        },
        _ => (tree, SExecState { frames, pending: SPending::Nothing }, SExecAction::Next),
    }
}

/// One step of the machine: the value handed back put to use, then, unless
/// that ended the run, one move or request.
pub open spec fn spec_exec_step<V>(tree: ScopeTree<V>, st: SExecState, ev: ExecEvent<V>) -> (
    ScopeTree<V>,
    SExecState,
    SExecAction<V>,
) {
    let (t1, s1, sig) = spec_apply(tree, st, ev);
    match sig {
        Some(s) => (t1, s1, SExecAction::Done(s)),
        None => spec_advance(t1, s1),
    }
}

// ---------------------------------------------------------------------------
// The machine
// ---------------------------------------------------------------------------

/// What a list of statements being run is; see [`SFrameKind`].
#[derive(Debug)]
pub enum FrameKind {
    Plain,
    Loop(Expr, usize),
}

/// A list of statements being run; see [`SFrame`].
#[derive(Debug)]
pub struct Frame {
    pub stmts: Vec<Stmt>,
    pub next: usize,
    pub env: usize,
    pub kind: FrameKind,
}

/// What the awaited value is for; see [`SPending`].
#[derive(Debug)]
pub enum Pending {
    Nothing,
    Discard,
    Define(usize, String),
    Branch(usize, Vec<Stmt>, Option<Vec<Stmt>>),
    LoopCondition,
    Return,
}

/// What a step asks of the host: to step again; to evaluate an expression in
/// a scope (and to print its value); to make the value of a declared
/// function that closes over a scope; or nothing more, the run being done
/// with the given signal.
#[derive(Debug)]
pub enum ExecAction<V> {
    Next,
    Eval(usize, Expr),
    Print(usize, Expr),
    Function(usize, Stmt),
    Done(Signal<V>),
}

/// The state of a run of statements.
#[derive(Debug)]
pub struct ExecState {
    frames: Vec<Frame>,
    pending: Pending,
}

pub open spec fn frame_view(f: Frame) -> SFrame {
    SFrame {
        stmts: stmts_view(f.stmts@),
        next: f.next as nat,
        env: f.env,
        kind: match f.kind {
            FrameKind::Plain => SFrameKind::Plain,
            FrameKind::Loop(c, r) => SFrameKind::Loop(c@, r as nat),
        },
    }
}

pub open spec fn pending_view(p: Pending) -> SPending {
    match p {
        Pending::Nothing => SPending::Nothing,
        Pending::Discard => SPending::Discard,
        Pending::Define(env, name) => SPending::Define(env, name@),
        Pending::Branch(env, t, f) => SPending::Branch(
            env,
            stmts_view(t@),
            match f {
                Some(f) => Some(stmts_view(f@)),
                None => None,
            },
        ),
        Pending::LoopCondition => SPending::LoopCondition,
        Pending::Return => SPending::Return,
    }
}

impl View for Frame {
    type V = SFrame;

    open spec fn view(&self) -> SFrame {
        frame_view(*self)
    }
}

impl<V> View for ExecAction<V> {
    type V = SExecAction<V>;

    open spec fn view(&self) -> SExecAction<V> {
        match self {
            ExecAction::Next => SExecAction::Next,
            ExecAction::Eval(env, e) => SExecAction::Eval(*env, e@),
            ExecAction::Print(env, e) => SExecAction::Print(*env, e@),
            ExecAction::Function(env, s) => SExecAction::Function(*env, s@),
            ExecAction::Done(sig) => SExecAction::Done(*sig),
        }
    }
}

impl View for ExecState {
    type V = SExecState;

    closed spec fn view(&self) -> SExecState {
        SExecState { frames: self.frames@.map_values(|f: Frame| frame_view(f)), pending: pending_view(self.pending) }
    }
}

impl ExecState {
    /// A run of `stmts` in scope `env`.
    pub fn new(stmts: Vec<Stmt>, env: usize) -> (r: Self)
        ensures
            r@ == (SExecState {
                frames: seq![SFrame { stmts: stmts_view(stmts@), next: 0, env, kind: SFrameKind::Plain }],
                pending: SPending::Nothing,
            }),
    {
        let mut frames: Vec<Frame> = Vec::new();
        frames.push(Frame { stmts, next: 0, env, kind: FrameKind::Plain });
        let r = ExecState { frames, pending: Pending::Nothing };
        assert(r@.frames =~= seq![SFrame { stmts: stmts_view(stmts@), next: 0, env, kind: SFrameKind::Plain }]);
        r
    }
}

/// The state with the frames `frames` and the awaited value `p`.
pub open spec fn state_of(frames: Seq<Frame>, p: Pending) -> SExecState {
    SExecState { frames: frames.map_values(|f: Frame| frame_view(f)), pending: pending_view(p) }
}

proof fn lemma_state_of_push(frames: Seq<Frame>, f: Frame, p: Pending)
    ensures
        state_of(frames.push(f), p).frames == state_of(frames, p).frames.push(frame_view(f)),
{
    assert(frames.push(f).map_values(|f: Frame| frame_view(f)) =~= frames.map_values(|f: Frame| frame_view(f)).push(
        frame_view(f),
    ));
}

proof fn lemma_state_of_drop_last(frames: Seq<Frame>, p: Pending)
    requires
        frames.len() > 0,
    ensures
        state_of(frames.drop_last(), p).frames == state_of(frames, p).frames.drop_last(),
{
    assert(frames.drop_last().map_values(|f: Frame| frame_view(f)) =~= frames.map_values(|f: Frame| frame_view(f)).drop_last());
}

impl ExecState {
    /// Puts the value handed back to use; `Some` where a `return` ends the run.
    fn apply<V>(&mut self, it: &mut Interpreter<V>, ev: ExecEvent<V>) -> (r: Option<Signal<V>>)
        requires
            old(it).wf(),
            exec_inv(old(self)@, old(it).env@),
        ensures
            final(it).wf(),
            final(it).locals == old(it).locals,
            (final(it).env@, final(self)@, r) == spec_apply(old(it).env@, old(self)@, ev),
    {
        let mut p = Pending::Nothing;
        std::mem::swap(&mut p, &mut self.pending);
        let ghost fr = self.frames@;
        assert(self@ == state_of(fr, Pending::Nothing));
        match ev {
            ExecEvent::Start => None,
            ExecEvent::Evaluated(v, truthy) => match p {
                Pending::Define(env, name) => {
                    it.env.define_var(env, name.as_str(), v);
                    None
                },
                Pending::Branch(env, t, f) => {
                    let chosen = if truthy {
                        Some(t)
                    } else {
                        f
                    };
                    match chosen {
                        Some(ss) => {
                            let fr0 = Frame { stmts: ss, next: 0, env, kind: FrameKind::Plain };
                            self.frames.push(fr0);
                            proof {
                                lemma_state_of_push(fr, fr0, Pending::Nothing);
                            }
                        },
                        None => {},
                    }
                    None
                },
                Pending::LoopCondition => {
                    if self.frames.len() > 0 {
                        let mut top = self.frames.pop().unwrap();
                        proof {
                            lemma_state_of_drop_last(fr, Pending::Nothing);
                        }
                        if truthy {
                            top.next = 0;
                            let ghost rest = self.frames@;
                            self.frames.push(top);
                            proof {
                                lemma_state_of_push(rest, top, Pending::Nothing);
                                assert(state_of(fr, Pending::Nothing).frames.drop_last().push(frame_view(top))
                                    =~= state_of(fr, Pending::Nothing).frames.update(
                                    fr.len() - 1,
                                    SFrame { next: 0, ..state_of(fr, Pending::Nothing).frames.last() },
                                ));
                            }
                        }
                    }
                    None
                },
                Pending::Return => {
                    self.frames = Vec::new();
                    assert(self@.frames =~= Seq::<SFrame>::empty());
                    Some(Signal::Return(v))
                },
                _ => None,
            },
        }
    }
}

impl ExecState {
    /// One move through the statements, or one request to the host.
    fn advance<V>(&mut self, it: &mut Interpreter<V>) -> (a: ExecAction<V>)
        requires
            old(it).wf(),
            exec_inv(old(self)@, old(it).env@),
            old(self).pending is Nothing,
        ensures
            final(it).wf(),
            final(it).locals == old(it).locals,
            (final(it).env@, final(self)@, a@) == spec_advance(old(it).env@, old(self)@),
    {
        let n = self.frames.len();
        if n == 0 {
            return ExecAction::Done(Signal::Normal);
        }
        let ghost fr = self.frames@;
        let ghost sv = self@;
        let ghost tree = it.env@;
        assert(sv == state_of(fr, Pending::Nothing));
        assert(sv.frames[n - 1] == frame_view(fr[n - 1]));
        let mut top = self.frames.pop().unwrap();
        proof {
            lemma_state_of_drop_last(fr, Pending::Nothing);
        }
        let env = top.env;
        if top.next < top.stmts.len() {
            let i = top.next;
            top.next = i + 1;
            proof {
                lemma_stmts_view_index(top.stmts@, i as int);
            }
            let ghost frames1 = sv.frames.update(n - 1, SFrame { next: (i + 1) as nat, ..sv.frames.last() });
            let ghost rest = self.frames@;
            assert(frame_view(top) == frames1[n - 1]);
            assert(state_of(rest.push(top), Pending::Nothing).frames =~= frames1) by {
                lemma_state_of_push(rest, top, Pending::Nothing);
            }
            match &top.stmts[i] {
                Stmt::Expr(e) => {
                    let e2 = e.duplicate();
                    self.frames.push(top);
                    self.pending = Pending::Discard;
                    ExecAction::Eval(env, e2)
                },
                Stmt::Print(e) => {
                    let e2 = e.duplicate();
                    self.frames.push(top);
                    self.pending = Pending::Discard;
                    ExecAction::Print(env, e2)
                },
                Stmt::Var { target, expr } => match &target.token_type {
                    TokenType::Identifier(name) => {
                        let e2 = expr.duplicate();
                        let name2 = name.clone();
                        self.frames.push(top);
                        self.pending = Pending::Define(env, name2);
                        ExecAction::Eval(env, e2)
                    },
                    _ => {
                        self.frames.push(top);
                        ExecAction::Next
                    },
                },
                Stmt::Block(ss) => {
                    let inner = duplicate_stmts(ss);
                    self.frames.push(top);
                    let scope = it.env.with_outer(env);
                    let f = Frame { stmts: inner, next: 0, env: scope, kind: FrameKind::Plain };
                    let ghost with_top = self.frames@;
                    self.frames.push(f);
                    proof {
                        lemma_state_of_push(with_top, f, Pending::Nothing);
                    }
                    ExecAction::Next
                },
                Stmt::Conditional { condition, true_branch, false_branch } => {
                    let c2 = condition.duplicate();
                    let t2 = duplicate_stmts(true_branch);
                    let f2 = match false_branch {
                        Some(f) => Some(duplicate_stmts(f)),
                        None => None,
                    };
                    self.frames.push(top);
                    self.pending = Pending::Branch(env, t2, f2);
                    ExecAction::Eval(env, c2)
                },
                Stmt::While { condition, stmts } => {
                    let body = duplicate_stmts(stmts);
                    let c2 = condition.duplicate();
                    let len = body.len();
                    self.frames.push(top);
                    let f = Frame { stmts: body, next: len, env, kind: FrameKind::Loop(c2, len) };
                    let ghost with_top = self.frames@;
                    self.frames.push(f);
                    proof {
                        lemma_state_of_push(with_top, f, Pending::Nothing);
                        crate::stmt::lemma_stmts_view_len(body@);
                    }
                    ExecAction::Next
                },
                Stmt::For { .. } => {
                    let d = top.stmts[i].desugar_for();
                    self.frames.push(top);
                    match d {
                        Some(Stmt::Block(mut items)) => {
                            let ghost iv = items@;
                            proof {
                                crate::stmt::lemma_stmts_view_len(iv);
                                lemma_stmts_view_index(iv, 0);
                                lemma_stmts_view_index(iv, 1);
                            }
                            let w = items.pop().unwrap();
                            let decl = items.pop().unwrap();
                            match w {
                                Stmt::While { condition, stmts: body } => {
                                    let scope = it.env.with_outer(env);
                                    let len = body.len();
                                    proof {
                                        crate::stmt::lemma_stmts_view_len(body@);
                                    }
                                    let lf = Frame {
                                        stmts: body,
                                        next: len,
                                        env: scope,
                                        kind: FrameKind::Loop(*condition, len - 1),
                                    };
                                    let mut first: Vec<Stmt> = Vec::new();
                                    first.push(decl);
                                    proof {
                                        crate::stmt::lemma_stmts_view_push(Seq::<Stmt>::empty(), decl);
                                        assert(Seq::<Stmt>::empty().push(decl) =~= first@);
                                    }
                                    let df = Frame { stmts: first, next: 0, env: scope, kind: FrameKind::Plain };
                                    let ghost with_top = self.frames@;
                                    self.frames.push(lf);
                                    let ghost with_loop = self.frames@;
                                    self.frames.push(df);
                                    proof {
                                        lemma_state_of_push(with_top, lf, Pending::Nothing);
                                        lemma_state_of_push(with_loop, df, Pending::Nothing);
                                    }
                                    ExecAction::Next
                                },
                                _ => {
                                    proof {
                                        assert(false);
                                    }
                                    ExecAction::Next
                                },
                            }
                        },
                        _ => {
                            proof {
                                assert(false);
                            }
                            ExecAction::Next
                        },
                    }
                },
                Stmt::Function { identifier, .. } => match &identifier.token_type {
                    TokenType::Identifier(name) => {
                        let f = top.stmts[i].duplicate();
                        let name2 = name.clone();
                        self.frames.push(top);
                        self.pending = Pending::Define(env, name2);
                        ExecAction::Function(env, f)
                    },
                    _ => {
                        self.frames.push(top);
                        ExecAction::Next
                    },
                },
                Stmt::Return(e) => {
                    let e2 = e.duplicate();
                    self.frames.push(top);
                    self.pending = Pending::Return;
                    ExecAction::Eval(env, e2)
                },
                Stmt::Break => {
                    self.frames.push(top);
                    assert(spec_advance(tree, sv) == break_result(tree, frames1));
                    while self.frames.len() > 0
                        invariant
                            spec_advance(tree, sv) == break_result(tree, frames1),
                            sv == old(self)@,
                            tree == old(it).env@,
                            self.pending is Nothing,
                            it.wf(),
                            it.locals == old(it).locals,
                            it.env@ == tree,
                            unwind_break(frames1) == unwind_break(self@.frames),
                        decreases self.frames.len(),
                    {
                        let ghost cur = self.frames@;
                        let f = self.frames.pop().unwrap();
                        proof {
                            lemma_state_of_drop_last(cur, Pending::Nothing);
                        }
                        if matches!(f.kind, FrameKind::Loop(..)) {
                            return ExecAction::Next;
                        }
                    }
                    assert(self@.frames =~= Seq::<SFrame>::empty());
                    ExecAction::Done(Signal::Break)
                },
                Stmt::Continue => {
                    self.frames.push(top);
                    assert(spec_advance(tree, sv) == continue_result(tree, frames1));
                    while self.frames.len() > 0
                        invariant
                            spec_advance(tree, sv) == continue_result(tree, frames1),
                            sv == old(self)@,
                            tree == old(it).env@,
                            self.pending is Nothing,
                            it.wf(),
                            it.locals == old(it).locals,
                            it.env@ == tree,
                            unwind_continue(frames1) == unwind_continue(self@.frames),
                        decreases self.frames.len(),
                    {
                        let ghost cur = self.frames@;
                        let mut f = self.frames.pop().unwrap();
                        proof {
                            lemma_state_of_drop_last(cur, Pending::Nothing);
                        }
                        if let FrameKind::Loop(_, r) = &f.kind {
                            f.next = *r;
                            let ghost rest = self.frames@;
                            self.frames.push(f);
                            proof {
                                lemma_state_of_push(rest, f, Pending::Nothing);
                                assert(self@.frames =~= state_of(cur, Pending::Nothing).frames.update(
                                    cur.len() - 1,
                                    SFrame { next: r as nat, ..state_of(cur, Pending::Nothing).frames.last() },
                                ));
                            }
                            return ExecAction::Next;
                        }
                    }
                    assert(self@.frames =~= Seq::<SFrame>::empty());
                    ExecAction::Done(Signal::Continue)
                },
            }
        } else {
            proof {
                crate::stmt::lemma_stmts_view_len(top.stmts@);
            }
            match &top.kind {
                FrameKind::Loop(c, _) => {
                    let c2 = c.duplicate();
                    let ghost rest = self.frames@;
                    self.frames.push(top);
                    proof {
                        lemma_state_of_push(rest, top, Pending::Nothing);
                        assert(self@.frames =~= sv.frames);
                    }
                    self.pending = Pending::LoopCondition;
                    ExecAction::Eval(env, c2)
                },
                FrameKind::Plain => {
                    ExecAction::Next
                },
            }
        }
    }
}


/// After `break`, the frames left are the first ones of those before it.
proof fn lemma_unwind_break_prefix(frames: Seq<SFrame>)
    ensures
        unwind_break(frames) matches Some(fs) ==> fs.len() < frames.len() && forall|i: int|
            0 <= i < fs.len() ==> fs[i] == frames[i],
    decreases frames.len(),
{
    if frames.len() > 0 && !(frames.last().kind is Loop) {
        lemma_unwind_break_prefix(frames.drop_last());
    }
}

/// After `continue`, the frames left are the first ones of those before it,
/// the last of them a loop moved to where `continue` leads.
proof fn lemma_unwind_continue_prefix(frames: Seq<SFrame>)
    ensures
        unwind_continue(frames) matches Some(fs) ==> {
            &&& 0 < fs.len() <= frames.len()
            &&& forall|i: int| 0 <= i < fs.len() - 1 ==> fs[i] == frames[i]
            &&& frames[fs.len() - 1].kind matches SFrameKind::Loop(_, r)
            &&& fs[fs.len() - 1] == (SFrame { next: r, ..frames[fs.len() - 1] })
        },
    decreases frames.len(),
{
    if frames.len() > 0 && frames.last().kind is Plain {
        lemma_unwind_continue_prefix(frames.drop_last());
    }
}

/// Putting a value to use keeps every scope and index of the state in range.
proof fn lemma_apply_keeps_inv<V>(tree: ScopeTree<V>, st: SExecState, ev: ExecEvent<V>)
    requires
        exec_inv(st, tree),
    ensures
        exec_inv(spec_apply(tree, st, ev).1, spec_apply(tree, st, ev).0),
        spec_apply(tree, st, ev).1.pending is Nothing,
{
    let (t1, s1, _) = spec_apply(tree, st, ev);
    assert(t1.len() == tree.len());
    assert forall|i: int| 0 <= i < s1.frames.len() implies (#[trigger] s1.frames[i]).env < t1.len()
        && s1.frames[i].next <= s1.frames[i].stmts.len() by {
        if i < st.frames.len() {
            assert(s1.frames[i].env == st.frames[i].env);
        }
    }
}

/// One move through the statements keeps every scope and index of the state
/// in range.
proof fn lemma_advance_keeps_inv<V>(tree: ScopeTree<V>, st: SExecState)
    requires
        exec_inv(st, tree),
    ensures
        exec_inv(spec_advance(tree, st).1, spec_advance(tree, st).0),
{
    let (t1, s1, _) = spec_advance(tree, st);
    if st.frames.len() > 0 {
        let top = st.frames.last();
        let frames1 = st.frames.update(st.frames.len() - 1, SFrame { next: top.next + 1, ..top });
        lemma_unwind_break_prefix(frames1);
        lemma_unwind_continue_prefix(frames1);
        assert(t1.len() >= tree.len());
        assert forall|i: int| 0 <= i < s1.frames.len() implies (#[trigger] s1.frames[i]).env < t1.len()
            && s1.frames[i].next <= s1.frames[i].stmts.len() by {
            if i < st.frames.len() - 1 {
                assert(frames1[i] == st.frames[i]);
            }
            if i < st.frames.len() {
                assert(st.frames[i].env < tree.len());
            }
        }
    }
}

/// Runs one step of the machine: puts the value handed back to use, then,
/// unless a `return` ended the run, makes one move through the statements or
/// one request to the host.
pub fn exec_step<V>(it: &mut Interpreter<V>, st: &mut ExecState, ev: ExecEvent<V>) -> (a: ExecAction<V>)
    requires
        old(it).wf(),
        exec_inv(old(st)@, old(it).env@),
    ensures
        final(it).wf(),
        final(it).locals == old(it).locals,
        exec_inv(final(st)@, final(it).env@),
        (final(it).env@, final(st)@, a@) == spec_exec_step(old(it).env@, old(st)@, ev),
{
    proof {
        lemma_apply_keeps_inv(it.env@, st@, ev);
    }
    match st.apply(it, ev) {
        Some(sig) => ExecAction::Done(sig),
        None => {
            proof {
                lemma_advance_keeps_inv(it.env@, st@);
            }
            st.advance(it)
        },
    }
}


/// A block runs in a scope of its own, nested in the scope it stands in, and
/// what is declared there stays there: starting a block opens a new scope
/// whose enclosing scope is the current one, and setting any name in that new
/// scope changes no read from any scope that existed before.
pub proof fn law_block_declarations_stay_inside<V>(
    tree: ScopeTree<V>,
    st: SExecState,
    name: Seq<char>,
    v: V,
    e: int,
    x: Seq<char>,
)
    requires
        tree.wf(),
        tree.len() <= usize::MAX,
        exec_inv(st, tree),
        st.pending is Nothing,
        st.frames.len() > 0,
        st.frames.last().next < st.frames.last().stmts.len(),
        st.frames.last().stmts[st.frames.last().next as int] is Block,
        tree.valid(e),
    ensures
        ({
            let (t1, s1, a) = spec_exec_step(tree, st, ExecEvent::Start);
            &&& a is Next
            &&& s1.frames.last().env == tree.len()
            &&& t1.outer[tree.len() as int] == Some(st.frames.last().env)
            &&& t1.define(tree.len() as int, name, v).lookup(e, x) == tree.lookup(e, x)
        }),
{
    let (t1, s1, a) = spec_exec_step(tree, st, ExecEvent::Start);
    let env = st.frames.last().env;
    assert(env < tree.len());
    assert(t1 == tree.push_scope(Some(env)));
    lemma_push_scope(tree, Some(env), e, x);
    law_later_scope_is_unseen(t1, tree.len() as int, name, v, e, x);
}


/// The index of the innermost loop among `frames`, if any.
pub open spec fn innermost_loop(frames: Seq<SFrame>) -> Option<int>
    decreases frames.len(),
{
    if frames.len() == 0 {
        None
    } else if frames.last().kind is Loop {
        Some(frames.len() - 1)
    } else {
        innermost_loop(frames.drop_last())
    }
}

proof fn lemma_unwind_break_is_take(frames: Seq<SFrame>)
    ensures
        match innermost_loop(frames) {
            Some(k) => 0 <= k < frames.len() && frames[k].kind is Loop && unwind_break(frames) == Some(
                frames.take(k),
            ) && forall|j: int| k < j < frames.len() ==> !(#[trigger] frames[j].kind is Loop),
            None => unwind_break(frames) is None && forall|j: int|
                0 <= j < frames.len() ==> !(#[trigger] frames[j].kind is Loop),
        },
    decreases frames.len(),
{
    if frames.len() > 0 {
        if frames.last().kind is Loop {
            assert(frames.drop_last() =~= frames.take(frames.len() - 1));
        } else {
            let d = frames.drop_last();
            lemma_unwind_break_is_take(d);
            match innermost_loop(d) {
                Some(k) => {
                    assert(d.take(k) =~= frames.take(k));
                    assert forall|j: int| k < j < frames.len() implies !(#[trigger] frames[j].kind is Loop) by {
                        if j < d.len() {
                            assert(frames[j] == d[j]);
                        }
                    }
                },
                None => {
                    assert forall|j: int| 0 <= j < frames.len() implies !(#[trigger] frames[j].kind is Loop) by {
                        if j < d.len() {
                            assert(frames[j] == d[j]);
                        }
                    }
                },
            }
        }
    }
}

/// `break` leaves the innermost loop being run, and only it: the lists run
/// inside that loop's body (blocks, branches) are left with it, the lists
/// around the loop stay as they were, and the run goes on after the loop.
/// With no loop being run, `break` ends the run with the `Break` signal.
pub proof fn law_break_leaves_the_innermost_loop<V>(tree: ScopeTree<V>, st: SExecState)
    requires
        st.pending is Nothing,
        st.frames.len() > 0,
        st.frames.last().next < st.frames.last().stmts.len(),
        st.frames.last().stmts[st.frames.last().next as int] is Break,
    ensures
        ({
            let (t1, s1, a) = spec_exec_step(tree, st, ExecEvent::Start);
            &&& t1 == tree
            &&& match innermost_loop(st.frames) {
                Some(k) => a is Next && s1.frames == st.frames.take(k) && forall|j: int|
                    k < j < st.frames.len() ==> !(#[trigger] st.frames[j].kind is Loop),
                None => a == SExecAction::<V>::Done(Signal::Break) && s1.frames.len() == 0,
            }
        }),
{
    let top = st.frames.last();
    let n = st.frames.len() - 1;
    let frames1 = st.frames.update(n, SFrame { next: top.next + 1, ..top });
    lemma_unwind_break_is_take(frames1);
    lemma_unwind_break_is_take(st.frames);
    assert(frames1.drop_last() =~= st.frames.drop_last());
    assert(innermost_loop(frames1) == innermost_loop(st.frames));
    if let Some(k) = innermost_loop(st.frames) {
        assert(k <= n);
        assert(frames1.take(k) =~= st.frames.take(k));
    }
}

/// A `while` loop runs its body as long as its condition holds: when the
/// body is done (or about to start) the condition is asked for, in the scope
/// the loop runs in; a value that counts as true runs the body again from its
/// first statement, and one that counts as false leaves the loop.
pub proof fn law_while_runs_while_its_condition_holds<V>(tree: ScopeTree<V>, st: SExecState, v: V)
    requires
        st.pending is Nothing,
        st.frames.len() > 0,
        st.frames.last().next >= st.frames.last().stmts.len(),
        st.frames.last().kind is Loop,
    ensures
        ({
            let last = st.frames.last();
            let asked = SExecState { frames: st.frames, pending: SPending::LoopCondition };
            let again = SExecState {
                frames: st.frames.update(st.frames.len() - 1, SFrame { next: 0, ..last }),
                pending: SPending::Nothing,
            };
            let left = SExecState { frames: st.frames.drop_last(), pending: SPending::Nothing };
            &&& spec_exec_step(tree, st, ExecEvent::Start) == (tree, asked, SExecAction::<V>::Eval(
                last.env,
                last.kind->0,
            ))
            &&& spec_exec_step(tree, asked, ExecEvent::Evaluated(v, true)) == spec_advance(tree, again)
            &&& spec_exec_step(tree, asked, ExecEvent::Evaluated(v, false)) == spec_advance(tree, left)
        }),
{
}

/// A `return` ends the run with the value handed back for its expression,
/// whatever lists were being run.
pub proof fn law_return_ends_the_run<V>(tree: ScopeTree<V>, st: SExecState, v: V, truthy: bool)
    requires
        st.pending is Return,
    ensures
        spec_exec_step(tree, st, ExecEvent::Evaluated(v, truthy)) == (
            tree,
            SExecState { frames: Seq::empty(), pending: SPending::Nothing },
            SExecAction::Done(Signal::Return(v)),
        ),
{
}


/// A `for` loop runs in a scope of its own, nested in the scope it stands
/// in, the statements of the block it stands for: the declaration of the
/// loop variable runs first, then the loop asks for its condition; the body
/// of the loop ends with the step, and that step is where `continue` leads.
pub proof fn law_for_runs_in_a_scope_of_its_own<V>(tree: ScopeTree<V>, st: SExecState)
    requires
        st.pending is Nothing,
        st.frames.len() > 0,
        st.frames.last().next < st.frames.last().stmts.len(),
        st.frames.last().stmts[st.frames.last().next as int] is For,
    ensures
        ({
            let (t1, s1, a) = spec_exec_step(tree, st, ExecEvent::Start);
            let top = st.frames.last();
            let n = st.frames.len() as int;
            let scope = tree.len() as usize;
            match top.stmts[top.next as int] {
                SStmt::For { identifier, start, end, step, condition, stmts } => match spec_desugar_for(
                    identifier,
                    start,
                    end,
                    step,
                    condition,
                    stmts,
                ) {
                    SStmt::Block(ss) => match ss[1] {
                        SStmt::While { condition: c, stmts: body } => {
                            &&& a is Next
                            &&& t1 == tree.push_scope(Some(top.env))
                            &&& s1.frames.len() == n + 2
                            &&& s1.frames.take(n - 1) == st.frames.take(n - 1)
                            &&& s1.frames[n - 1] == (SFrame { next: top.next + 1, ..top })
                            &&& s1.frames[n] == (SFrame {
                                stmts: body,
                                next: body.len(),
                                env: scope,
                                kind: SFrameKind::Loop(c, (body.len() - 1) as nat),
                            })
                            &&& s1.frames[n + 1] == (SFrame {
                                stmts: seq![ss[0]],
                                next: 0,
                                env: scope,
                                kind: SFrameKind::Plain,
                            })
                            &&& ss[0] == (SStmt::Var { target: identifier, expr: start })
                            &&& body == stmts.push(body.last())
                        },
                        _ => false,
                    },
                    _ => false,
                },
                _ => false,
            }
        }),
{
    let top = st.frames.last();
    let n = st.frames.len() as int;
    let frames1 = st.frames.update(n - 1, SFrame { next: top.next + 1, ..top });
    assert(frames1.take(n - 1) =~= st.frames.take(n - 1));
    let (t1, s1, a) = spec_exec_step(tree, st, ExecEvent::Start);
    assert(s1.frames.take(n - 1) =~= frames1.take(n - 1));
    if let SStmt::For { identifier, start, end, step, condition, stmts } = top.stmts[top.next as int] {
        if let SStmt::Block(ss) = spec_desugar_for(identifier, start, end, step, condition, stmts) {
            if let SStmt::While { condition: c, stmts: body } = ss[1] {
                assert(body == stmts.push(body.last()));
            }
        }
    }
}


proof fn lemma_unwind_continue_at(frames: Seq<SFrame>)
    ensures
        match innermost_loop(frames) {
            Some(k) => {
                &&& frames[k].kind matches SFrameKind::Loop(_, r)
                &&& unwind_continue(frames) == Some(frames.take(k).push(SFrame { next: r, ..frames[k] }))
            },
            None => unwind_continue(frames) is None,
        },
    decreases frames.len(),
{
    lemma_unwind_break_is_take(frames);
    if frames.len() > 0 {
        if frames.last().kind is Loop {
            let k = frames.len() - 1;
            assert(frames.update(k, SFrame { next: frames[k].kind->1, ..frames[k] }) =~= frames.take(k).push(
                SFrame { next: frames[k].kind->1, ..frames[k] },
            ));
        } else {
            let d = frames.drop_last();
            lemma_unwind_continue_at(d);
            if let Some(k) = innermost_loop(d) {
                assert(d.take(k) =~= frames.take(k));
                assert(d[k] == frames[k]);
            }
        }
    }
}

/// `continue` goes on with the next round of the innermost loop being run:
/// the lists run inside that loop's body (blocks, branches) are left, the
/// lists around the loop stay as they were, and the loop's body goes on
/// where `continue` leads (past its end, to the condition, for a `while`
/// loop; to the step for a `for` loop). With no loop being run, `continue`
/// ends the run with the `Continue` signal.
pub proof fn law_continue_goes_on_with_the_next_round<V>(tree: ScopeTree<V>, st: SExecState)
    requires
        st.pending is Nothing,
        st.frames.len() > 0,
        st.frames.last().next < st.frames.last().stmts.len(),
        st.frames.last().stmts[st.frames.last().next as int] is Continue,
    ensures
        ({
            let (t1, s1, a) = spec_exec_step(tree, st, ExecEvent::Start);
            &&& t1 == tree
            &&& match innermost_loop(st.frames) {
                Some(k) => {
                    &&& a is Next
                    &&& st.frames[k].kind matches SFrameKind::Loop(_, r)
                    &&& s1.frames == st.frames.take(k).push(SFrame { next: r, ..st.frames[k] })
                },
                None => a == SExecAction::<V>::Done(Signal::Continue) && s1.frames.len() == 0,
            }
        }),
{
    let top = st.frames.last();
    let n = st.frames.len() - 1;
    let frames1 = st.frames.update(n, SFrame { next: top.next + 1, ..top });
    lemma_unwind_continue_at(frames1);
    lemma_unwind_break_is_take(st.frames);
    lemma_unwind_break_is_take(frames1);
    assert(frames1.drop_last() =~= st.frames.drop_last());
    assert(innermost_loop(frames1) == innermost_loop(st.frames));
    if let Some(k) = innermost_loop(st.frames) {
        assert(frames1.take(k) =~= st.frames.take(k));
        assert(SFrame { next: frames1[k].kind->1, ..frames1[k] } == SFrame { next: st.frames[k].kind->1, ..st.frames[k] });
    }
}


/// A declaration binds its name in the scope it stands in, and there only:
/// its initial value is asked for in that scope; the value handed back is
/// then set in that scope itself, where reading the name gives it (even if
/// an enclosing scope holds the name too), and every other scope keeps its
/// variables; the run then goes on after the declaration.
pub proof fn law_declaration_binds_in_its_own_scope<V>(tree: ScopeTree<V>, st: SExecState, v: V, truthy: bool)
    requires
        st.pending is Nothing,
        st.frames.len() > 0,
        st.frames.last().next < st.frames.last().stmts.len(),
        st.frames.last().stmts[st.frames.last().next as int] matches SStmt::Var { target, .. } && ident(target) is Some,
        tree.valid(st.frames.last().env as int),
    ensures
        ({
            let top = st.frames.last();
            let env = top.env;
            let frames1 = st.frames.update(st.frames.len() - 1, SFrame { next: top.next + 1, ..top });
            let (t1, s1, a) = spec_exec_step(tree, st, ExecEvent::Start);
            match top.stmts[top.next as int] {
                SStmt::Var { target, expr } => {
                    let n = ident(target)->0;
                    let t2 = tree.define(env as int, n, v);
                    &&& a == SExecAction::<V>::Eval(env, expr)
                    &&& t1 == tree
                    &&& s1 == (SExecState { frames: frames1, pending: SPending::Define(env, n) })
                    &&& spec_exec_step(t1, s1, ExecEvent::Evaluated(v, truthy)) == spec_advance(
                        t2,
                        SExecState { frames: frames1, pending: SPending::Nothing },
                    )
                    &&& t2.lookup(env as int, n) == Some(v)
                    &&& t2.len() == tree.len()
                    &&& forall|e: int| 0 <= e < tree.len() && e != env ==> #[trigger] t2.vars[e] == tree.vars[e]
                },
                _ => false,
            }
        }),
{
}


/// How a call of a declared function ends, from how the run of its body
/// ended: with the value of a `return`, with no value (the body ran to its
/// end), or stopped by a `break` or `continue` that no loop of the body took.
#[derive(Debug)]
pub enum CallEnd<V> {
    Value(V),
    NoValue,
    StrayBreak,
    StrayContinue,
}

pub open spec fn spec_call_end<V>(sig: Signal<V>) -> CallEnd<V> {
    match sig {
        Signal::Return(v) => CallEnd::Value(v),
        Signal::Normal => CallEnd::NoValue,
        Signal::Break => CallEnd::StrayBreak,
        Signal::Continue => CallEnd::StrayContinue,
    }
}

/// How a call ends, the run of its body having ended with `sig`; see
/// `spec_call_end`.
pub fn call_end<V>(sig: Signal<V>) -> (r: CallEnd<V>)
    ensures
        r == spec_call_end(sig),
{
    match sig {
        Signal::Return(v) => CallEnd::Value(v),
        Signal::Normal => CallEnd::NoValue,
        Signal::Break => CallEnd::StrayBreak,
        Signal::Continue => CallEnd::StrayContinue,
    }
}


/// A `while` statement asks for its condition before its body runs at all:
/// the loop is entered, its condition is asked for in the scope the loop
/// stands in, and a value that counts as false goes on after the loop
/// without running any of its body, while one that counts as true runs the
/// body from its first statement, in that same scope.
pub proof fn law_while_asks_its_condition_first<V>(tree: ScopeTree<V>, st: SExecState, v: V)
    requires
        st.pending is Nothing,
        st.frames.len() > 0,
        st.frames.last().next < st.frames.last().stmts.len(),
        st.frames.last().stmts[st.frames.last().next as int] is While,
    ensures
        ({
            let top = st.frames.last();
            let frames1 = st.frames.update(st.frames.len() - 1, SFrame { next: top.next + 1, ..top });
            let (t1, s1, a1) = spec_exec_step(tree, st, ExecEvent::Start);
            let (t2, s2, a2) = spec_exec_step(t1, s1, ExecEvent::Start);
            match top.stmts[top.next as int] {
                SStmt::While { condition, stmts } => {
                    let body = |n: nat|
                        SFrame { stmts, next: n, env: top.env, kind: SFrameKind::Loop(condition, stmts.len()) };
                    &&& a1 is Next
                    &&& t1 == tree
                    &&& a2 == SExecAction::<V>::Eval(top.env, condition)
                    &&& t2 == tree
                    &&& spec_exec_step(t2, s2, ExecEvent::Evaluated(v, false)) == spec_advance(
                        tree,
                        SExecState { frames: frames1, pending: SPending::Nothing },
                    )
                    &&& spec_exec_step(t2, s2, ExecEvent::Evaluated(v, true)) == spec_advance(
                        tree,
                        SExecState { frames: frames1.push(body(0)), pending: SPending::Nothing },
                    )
                },
                _ => false,
            }
        }),
{
    let top = st.frames.last();
    let frames1 = st.frames.update(st.frames.len() - 1, SFrame { next: top.next + 1, ..top });
    if let SStmt::While { condition, stmts } = top.stmts[top.next as int] {
        let lf = SFrame { stmts, next: stmts.len(), env: top.env, kind: SFrameKind::Loop(condition, stmts.len()) };
        assert(frames1.push(lf).drop_last() =~= frames1);
        assert(frames1.push(lf).update(frames1.len() as int, SFrame { next: 0, ..lf }) =~= frames1.push(
            SFrame { next: 0, ..lf },
        ));
    }
}


/// `print`, `return` and a function declaration, one step after another:
/// `print` asks the host to print its expression's value, worked out in the
/// current scope, and the run goes on after it; `return` asks for its
/// expression's value and ends the run with it; a function declaration asks
/// the host for a function closing over the current scope and binds its name
/// to it in that scope, and the run goes on after it.
pub proof fn law_print_return_and_function<V>(tree: ScopeTree<V>, st: SExecState, v: V, truthy: bool)
    requires
        st.pending is Nothing,
        st.frames.len() > 0,
        st.frames.last().next < st.frames.last().stmts.len(),
    ensures
        ({
            let top = st.frames.last();
            let env = top.env;
            let frames1 = st.frames.update(st.frames.len() - 1, SFrame { next: top.next + 1, ..top });
            let (t1, s1, a) = spec_exec_step(tree, st, ExecEvent::Start);
            let after = spec_exec_step(t1, s1, ExecEvent::Evaluated(v, truthy));
            match top.stmts[top.next as int] {
                SStmt::Print(e) => t1 == tree && a == SExecAction::<V>::Print(env, e) && after == spec_advance(
                    tree,
                    SExecState { frames: frames1, pending: SPending::Nothing },
                ),
                SStmt::Return(e) => t1 == tree && a == SExecAction::<V>::Eval(env, e) && after == (
                    tree,
                    SExecState { frames: Seq::empty(), pending: SPending::Nothing },
                    SExecAction::Done(Signal::Return(v)),
                ),
                SStmt::Function { identifier, params, body } => ident(identifier) is Some ==> t1 == tree
                    && a == SExecAction::<V>::Function(env, SStmt::Function { identifier, params, body }) && after
                    == spec_advance(
                    tree.define(env as int, ident(identifier)->0, v),
                    SExecState { frames: frames1, pending: SPending::Nothing },
                ),
                _ => true,
            }
        }),
{
}

} // verus!
