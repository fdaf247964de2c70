use vstd::prelude::*;

use crate::enviroment::{Enviroment, ScopeTree};
use crate::errors::{Error, ParserError, ScannerError};
use crate::parser::{spec_parse_tokens, Parser, ParserResult};
use crate::resolver::{ident, spec_resolve_stmts, RState, ResolveError, Resolver};
use crate::scanner::{scan_error_view, spec_scan_line, spec_scan_lines, token_view, Scanner};
use crate::stmt::{stmts_view, Stmt};
use crate::strmap::StrMap;
use crate::tokens::{STokenType, Token, TokenType};

verus! {

// ---------------------------------------------------------------------------
// From source text to a program
// ---------------------------------------------------------------------------

/// Whether a token matters to the parser: blanks never do, and comments do
/// not when `drop_comments` is set.
pub open spec fn spec_significant(t: Token, drop_comments: bool) -> bool {
    &&& !(t.token_type is Space)
    &&& !(drop_comments && (t.token_type is CommentStarter || t.token_type is Comment))
}

pub fn is_significant(t: &Token, drop_comments: bool) -> (r: bool)
    ensures
        r == spec_significant(*t, drop_comments),
{
    match t.token_type {
        TokenType::Space => false,
        TokenType::CommentStarter | TokenType::Comment(_) => !drop_comments,
        _ => true,
    }
}

pub open spec fn significant_of(tokens: Seq<Token>, drop_comments: bool) -> Seq<Token> {
    tokens.filter(|t: Token| spec_significant(t, drop_comments))
}

/// The tokens that matter to the parser, in order.
pub fn significant_tokens(tokens: &Vec<Token>, drop_comments: bool) -> (r: Vec<Token>)
    ensures
        r@ == significant_of(tokens@, drop_comments),
{
    let mut out: Vec<Token> = Vec::new();
    let mut i: usize = 0;
    assert(tokens@.take(0) =~= Seq::<Token>::empty());
    proof {
        reveal(Seq::filter);
    }
    while i < tokens.len()
        invariant
            i <= tokens@.len(),
            out@ == significant_of(tokens@.take(i as int), drop_comments),
        decreases tokens@.len() - i,
    {
        proof {
            reveal(Seq::filter);
            assert(tokens@.take(i + 1).drop_last() =~= tokens@.take(i as int));
            assert(tokens@.take(i + 1).last() == tokens@[i as int]);
        }
        if is_significant(&tokens[i], drop_comments) {
            out.push(tokens[i].duplicate());
        }
        i = i + 1;
    }
    assert(tokens@.take(tokens@.len() as int) =~= tokens@);
    out
}

/// What stops source text before it runs: the errors of the scanner, those
/// of the parser, or the mistake the resolver found.
#[derive(Debug)]
pub enum LoadError {
    Scan(Vec<Error<ScannerError>>),
    Parse(Vec<Error<ParserError>>),
    Resolve(ResolveError),
}

/// A program ready to run: its statements, and the scope depth of each
/// local variable that they use.
pub struct Program {
    pub stmts: Vec<Stmt>,
    pub locals: StrMap<usize>,
}

/// The abstract forms of a list of tokens.
pub open spec fn token_views(s: Seq<Token>) -> Seq<(STokenType, (usize, usize))> {
    s.map_values(|t: Token| token_view(t))
}

pub open spec fn fresh_resolver() -> RState {
    RState { locals: Map::empty(), scopes: Seq::empty(), cur_fun: None }
}

pub open spec fn line_views(lines: Seq<String>) -> Seq<Seq<char>> {
    lines.map_values(|l: String| l@)
}

/// Whether `r` is what loading the significant tokens `tokens` gives: the
/// parser's errors if it has any; else the mistake the resolver finds, if
/// any; else the statements with the depths that the resolver recorded.
pub open spec fn loaded_from(tokens: Seq<Token>, r: Result<Program, LoadError>) -> bool {
    let (ss, perrs) = spec_parse_tokens(tokens);
    if perrs.len() > 0 {
        r matches Err(LoadError::Parse(es)) && es@ == perrs
    } else {
        match spec_resolve_stmts(fresh_resolver(), ss) {
            Ok(st) => r matches Ok(p) && stmts_view(p.stmts@) == ss && p.locals.wf() && p.locals@ == st.locals,
            Err((_, e)) => r == Err::<Program, LoadError>(LoadError::Resolve(e)),
        }
    }
}

/// Whether `r` is what the prompt gives for the significant tokens
/// `tokens`: the statements the parser read and the errors it found.
pub open spec fn parsed_from(tokens: Seq<Token>, r: Result<ParserResult, LoadError>) -> bool {
    r matches Ok(p) && (p.spec_stmts(), p.spec_errors()) == spec_parse_tokens(tokens)
}

/// Loads the lines of a source file: scans them (line `i` numbered `i`),
/// drops blanks and comments, parses, and resolves. Each stage runs only if
/// the one before found no error.
pub fn load_file(lines: Vec<String>) -> (r: Result<Program, LoadError>)
    ensures
        ({
            let sc = spec_scan_lines(line_views(lines@));
            &&& sc.errors.len() > 0 ==> (r matches Err(LoadError::Scan(es)) && es@.map_values(
                |e: Error<ScannerError>| scan_error_view(e),
            ) == sc.errors)
            &&& sc.errors.len() == 0 ==> exists|scanned: Seq<Token>|
                #[trigger] token_views(scanned) == sc.tokens && loaded_from(
                    significant_of(scanned, true),
                    r,
                )
        }),
{
    let scanned = Scanner::scan_lines(lines);
    if scanned.has_err() {
        return Err(LoadError::Scan(scanned.into_err()));
    }
    let ghost sc = scanned@;
    let tokens = scanned.into_tokens();
    let significant = significant_tokens(&tokens, true);
    let parsed = Parser::parse_tokens(significant);
    if parsed.has_err() {
        let r = Err(LoadError::Parse(parsed.into_err()));
        assert(token_views(tokens@) == sc.tokens);
        return r;
    }
    let stmts = parsed.into_stmt();
    let mut resolver = Resolver::new();
    match resolver.resolve_stmts(stmts.as_slice()) {
        Ok(()) => {
            let locals = resolver.into_locals();
            let r = Ok(Program { stmts, locals });
            assert(token_views(tokens@) == sc.tokens);
            r
        },
        Err(e) => {
            let r = Err(LoadError::Resolve(e));
            assert(token_views(tokens@) == sc.tokens);
            r
        },
    }
}

/// Reads one line typed at the prompt: scans it as line 0, drops blanks (a
/// comment stays), and parses it. Scanner errors stop it; otherwise both the
/// statements read and the parser's errors come back.
pub fn load_line(line: String) -> (r: Result<ParserResult, LoadError>)
    ensures
        ({
            let sc = spec_scan_line(line@, 0);
            &&& sc.errors.len() > 0 ==> (r matches Err(LoadError::Scan(es)) && es@.map_values(
                |e: Error<ScannerError>| scan_error_view(e),
            ) == sc.errors)
            &&& sc.errors.len() == 0 ==> exists|scanned: Seq<Token>|
                #[trigger] token_views(scanned) == sc.tokens && parsed_from(
                    significant_of(scanned, false),
                    r,
                )
        }),
{
    let scanned = Scanner::scan_line(line, 0);
    if scanned.has_err() {
        return Err(LoadError::Scan(scanned.into_err()));
    }
    let ghost sc = scanned@;
    let tokens = scanned.into_tokens();
    let significant = significant_tokens(&tokens, false);
    let r = Ok(Parser::parse_tokens(significant));
    assert(token_views(tokens@) == sc.tokens);
    r
}

// ---------------------------------------------------------------------------
// Variables at run time
// ---------------------------------------------------------------------------

/// The value a variable read gives: a local one is read in the scope that
/// the resolver's depth points to; any other name is read from the globals
/// (scope 0). `None` where there is no such variable.
pub open spec fn spec_look_up<V>(tree: ScopeTree<V>, locals: Map<Seq<char>, usize>, env: int, name: Seq<char>) -> Option<
    V,
> {
    if locals.contains_key(name) {
        match tree.ancestor(env, locals[name] as nat) {
            Some(a) => if tree.vars[a].contains_key(name) {
                Some(tree.vars[a][name])
            } else {
                None
            },
            None => None,
        }
    } else {
        tree.lookup(0, name)
    }
}

/// The store that an assignment leaves: a local variable is set in the scope
/// that the resolver's depth points to; any other name is updated where the
/// globals define it. `None` where there is no such scope or variable.
pub open spec fn spec_assign<V>(tree: ScopeTree<V>, locals: Map<Seq<char>, usize>, env: int, name: Seq<char>, v: V) -> Option<
    ScopeTree<V>,
> {
    if locals.contains_key(name) {
        match tree.ancestor(env, locals[name] as nat) {
            Some(a) => Some(tree.define(a, name, v)),
            None => None,
        }
    } else {
        match tree.holder(0, name) {
            Some(h) => Some(tree.define(h, name, v)),
            None => None,
        }
    }
}

/// The runtime state of a program: its store of scopes, scope 0 holding the
/// globals, and the depths that the resolver recorded.
pub struct Interpreter<V> {
    pub env: Enviroment<V>,
    pub locals: StrMap<usize>,
}

impl<V> Default for Interpreter<V> {
    fn default() -> (r: Self)
        ensures
            r.wf(),
            r.env@ == (ScopeTree::<V> { vars: Seq::empty(), outer: Seq::empty() }).push_scope(None),
            r.locals@ == Map::<Seq<char>, usize>::empty(),
    {
        Interpreter::new()
    }
}

impl<V> Interpreter<V> {
    pub open spec fn wf(&self) -> bool {
        self.env.wf() && self.locals.wf()
    }

    /// An interpreter with empty globals and no recorded depths.
    pub fn new() -> (r: Self)
        ensures
            r.wf(),
            r.env@ == (ScopeTree::<V> { vars: Seq::empty(), outer: Seq::empty() }).push_scope(None),
            r.locals@ == Map::<Seq<char>, usize>::empty(),
    {
        Interpreter { env: Enviroment::new(), locals: StrMap::new() }
    }

    /// The value of the variable `identifier` read in scope `env`.
    pub fn look_up_var(&self, env: usize, identifier: &str) -> (r: Option<&V>)
        requires
            self.wf(),
            self.env@.valid(env as int),
        ensures
            match r {
                Some(v) => spec_look_up(self.env@, self.locals@, env as int, identifier@) == Some(*v),
                None => spec_look_up(self.env@, self.locals@, env as int, identifier@) is None,
            },
    {
        match self.locals.get(identifier) {
            Some(depth) => {
                if !self.env.has_ancestor(env, *depth) {
                    return None;
                }
                let a = self.env.ancestor(env, *depth);
                self.env.get_var_val_here(a, identifier)
            },
            None => self.env.get_var_val(0, identifier),
        }
    }

    /// Assigns `val` to the variable `identifier` as seen from scope `env`;
    /// `false`, with nothing changed, where there is no such variable. An
    /// assignment to an undefined variable is a run-time error of the
    /// program: the caller stops the run on `false`, as it does for a target
    /// that is not a variable, which never reaches this function.
    pub fn assign(&mut self, env: usize, identifier: &str, val: V) -> (r: bool)
        requires
            old(self).wf(),
            old(self).env@.valid(env as int),
        ensures
            final(self).wf(),
            final(self).locals == old(self).locals,
            match spec_assign(old(self).env@, old(self).locals@, env as int, identifier@, val) {
                Some(t) => r && final(self).env@ == t,
                None => !r && final(self).env@ == old(self).env@,
            },
    {
        match self.locals.get(identifier) {
            Some(depth) => {
                if !self.env.has_ancestor(env, *depth) {
                    return false;
                }
                self.env.define_at(env, identifier, val, *depth);
                true
            },
            None => {
                if self.env.get_var_val(0, identifier).is_none() {
                    return false;
                }
                let _ = self.env.update_var(0, identifier, val);
                true
            },
        }
    }
}

/// The variables of the scope of a call: each parameter that is an
/// identifier bound to the argument in its place, over the first `n` places;
/// a later parameter of the same name wins.
pub open spec fn frame_vars<V>(params: Seq<Token>, args: Seq<V>, n: nat) -> Map<Seq<char>, V>
    decreases n,
{
    if n == 0 {
        Map::empty()
    } else {
        let m = frame_vars(params, args, (n - 1) as nat);
        match ident(params[n - 1]) {
            Some(s) => m.insert(s, args[n - 1]),
            None => m,
        }
    }
}

proof fn lemma_frame_vars_binds<V>(params: Seq<Token>, args: Seq<V>, n: nat, i: int, name: Seq<char>)
    requires
        0 <= i < n,
        ident(params[i]) == Some(name),
        forall|j: int| i < j < n ==> ident(#[trigger] params[j]) != Some(name),
    ensures
        frame_vars(params, args, n).contains_key(name),
        frame_vars(params, args, n)[name] == args[i],
    decreases n,
{
    if n - 1 > i {
        lemma_frame_vars_binds(params, args, (n - 1) as nat, i, name);
        assert(ident(params[n - 1]) != Some(name));
    }
}

proof fn lemma_frame_vars_unbound<V>(params: Seq<Token>, args: Seq<V>, n: nat, name: Seq<char>)
    requires
        forall|j: int| 0 <= j < n ==> ident(#[trigger] params[j]) != Some(name),
    ensures
        !frame_vars(params, args, n).contains_key(name),
    decreases n,
{
    if n > 0 {
        lemma_frame_vars_unbound(params, args, (n - 1) as nat, name);
        assert(ident(params[n - 1]) != Some(name));
    }
}

/// The scope of a call binds each parameter to the argument in its place
/// (of a parameter named twice, the later one), and binds nothing else:
/// reading a parameter's name in the new scope gives its argument, and a name
/// that is no parameter is not in the new scope, so it is read from the scope
/// the function was made in.
pub proof fn law_call_binds_each_parameter<V>(
    tree: ScopeTree<V>,
    closure: usize,
    params: Seq<Token>,
    args: Seq<V>,
    name: Seq<char>,
)
    ensures
        ({
            let n = min_len(params.len(), args.len());
            let t = ScopeTree {
                vars: tree.vars.push(frame_vars(params, args, n)),
                outer: tree.outer.push(Some(closure)),
            };
            &&& forall|i: int|
                0 <= i < n && ident(#[trigger] params[i]) == Some(name) && (forall|j: int|
                    i < j < n ==> ident(#[trigger] params[j]) != Some(name)) ==> t.lookup(tree.len() as int, name)
                    == Some(args[i])
            &&& (forall|j: int| 0 <= j < n ==> ident(#[trigger] params[j]) != Some(name)) ==> !t.vars[tree.len() as int].contains_key(name)
        }),
{
    let n = min_len(params.len(), args.len());
    let t = ScopeTree {
        vars: tree.vars.push(frame_vars(params, args, n)),
        outer: tree.outer.push(Some(closure)),
    };
    assert(t.vars[tree.len() as int] == frame_vars(params, args, n));
    assert forall|i: int|
        0 <= i < n && ident(#[trigger] params[i]) == Some(name) && (forall|j: int|
            i < j < n ==> ident(#[trigger] params[j]) != Some(name)) implies t.lookup(tree.len() as int, name)
        == Some(args[i]) by {
        lemma_frame_vars_binds(params, args, n, i, name);
    }
    if forall|j: int| 0 <= j < n ==> ident(#[trigger] params[j]) != Some(name) {
        lemma_frame_vars_unbound(params, args, n, name);
    }
}

pub open spec fn min_len(a: nat, b: nat) -> nat {
    if a <= b {
        a
    } else {
        b
    }
}

/// Whether a callable of `arity` parameters takes `given` arguments: exactly
/// that many, or at most that many when it takes a variable number.
pub open spec fn spec_call_accepts(arity: usize, variable_arity: bool, given: usize) -> bool {
    arity == given || (arity >= given && variable_arity)
}

/// A function of fixed arity takes exactly as many arguments as it has
/// parameters, no fewer and no more; one of variable arity takes any number
/// up to its arity.
pub proof fn law_call_accepts_by_arity(arity: usize, given: usize)
    ensures
        spec_call_accepts(arity, false, given) <==> given == arity,
        spec_call_accepts(arity, true, given) <==> given <= arity,
{
}

pub fn call_accepts(arity: usize, variable_arity: bool, given: usize) -> (r: bool)
    ensures
        r == spec_call_accepts(arity, variable_arity, given),
{
    arity == given || arity >= given && variable_arity
}

/// What running a statement tells the code around it: go on, return a
/// value from the function, leave the loop, or go on with the loop's next
/// round.
#[derive(Debug)]
pub enum Signal<V> {
    Normal,
    Return(V),
    Break,
    Continue,
}

impl<V> Signal<V> {
    /// The value of a `return`.
    pub fn unwrap_return(self) -> (r: V)
        requires
            self is Return,
        ensures
            self == Signal::Return(r),
    {
        match self {
            Signal::Return(v) => v,
            _ => {
                proof {
                    assert(false);
                }
                unreached()
            },
        }
    }
}

impl<V> Interpreter<V> {
    /// Opens the scope of a call nested in `closure`, the scope the callable
    /// was made in, and binds its parameters to the arguments in order.
    pub fn call_frame(&mut self, closure: usize, params: &Vec<Token>, args: Vec<V>) -> (r: usize)
        requires
            old(self).wf(),
            old(self).env@.valid(closure as int),
        ensures
            final(self).wf(),
            final(self).locals == old(self).locals,
            r == old(self).env@.len(),
            final(self).env@ == (ScopeTree {
                vars: old(self).env@.vars.push(frame_vars(params@, args@, min_len(params@.len(), args@.len()))),
                outer: old(self).env@.outer.push(Some(closure)),
            }),
    {
        let frame = self.env.with_outer(closure);
        let n = if params.len() <= args.len() {
            params.len()
        } else {
            args.len()
        };
        let ghost all = args@;
        let ghost base = self.env@;
        let mut rest = args;
        let mut i: usize = 0;
        let ghost before = old(self).env@;
        assert(base.vars.update(frame as int, frame_vars(params@, all, 0)) =~= base.vars);
        while i < n
            invariant
                n <= params@.len(),
                n <= all.len(),
                i <= n,
                frame == base.len() - 1,
                self.wf(),
                self.locals == old(self).locals,
                self.env@.valid(frame as int),
                rest@ == all.subrange(i as int, all.len() as int),
                self.env@ == (ScopeTree {
                    vars: base.vars.update(frame as int, frame_vars(params@, all, i as nat)),
                    outer: base.outer,
                }),
            decreases n - i,
        {
            let a = rest.remove(0);
            assert(a == all[i as int]);
            match &params[i].token_type {
                TokenType::Identifier(s) => {
                    self.env.define_var(frame, s.as_str(), a);
                },
                _ => {},
            }
            i = i + 1;
            assert(rest@ =~= all.subrange(i as int, all.len() as int));
            assert(self.env@.vars =~= base.vars.update(frame as int, frame_vars(params@, all, i as nat)));
        }
        assert(self.env@.vars =~= before.vars.push(frame_vars(params@, all, n as nat)));
        frame
    }
}

/// Reading a variable from a scope right after assigning it there gives the
/// value assigned, whether the resolver recorded a depth for it or it is a
/// global.
pub proof fn law_read_after_assign<V>(
    tree: ScopeTree<V>,
    locals: Map<Seq<char>, usize>,
    env: int,
    name: Seq<char>,
    v: V,
)
    requires
        tree.wf(),
        tree.valid(env),
    ensures
        spec_assign(tree, locals, env, name, v) matches Some(t) ==> spec_look_up(t, locals, env, name) == Some(v),
{
    if locals.contains_key(name) {
        let d = locals[name] as nat;
        crate::enviroment::lemma_ancestor_valid(tree, env, d);
        if let Some(a) = tree.ancestor(env, d) {
            crate::enviroment::lemma_ancestor_after_define(tree, env, d, a, name, v);
        }
    } else {
        crate::enviroment::lemma_holder_lookup(tree, 0, name);
        if tree.holder(0, name) is Some {
            crate::enviroment::law_lookup_after_update(tree, 0, name, v);
        }
    }
}

} // verus!
