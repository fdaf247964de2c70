use vstd::prelude::*;

use crate::strmap::StrMap;

verus! {

/// The abstract state of a store of variable scopes: for each scope, its
/// variables and the scope it is nested in (always an earlier one).
pub struct ScopeTree<V> {
    pub vars: Seq<Map<Seq<char>, V>>,
    pub outer: Seq<Option<usize>>,
}

impl<V> ScopeTree<V> {
    pub open spec fn len(self) -> nat {
        self.vars.len()
    }

    pub open spec fn valid(self, env: int) -> bool {
        0 <= env < self.len()
    }

    /// Every scope is nested in an earlier one, so no chain of scopes loops.
    pub open spec fn wf(self) -> bool {
        &&& self.vars.len() == self.outer.len()
        &&& forall|i: int| 0 <= i < self.len() && (#[trigger] self.outer[i]) is Some ==> self.outer[i]->0 < i
    }

    /// The value that `name` has when read from scope `env`: the value in the
    /// innermost scope of its chain that defines it.
    pub open spec fn lookup(self, env: int, name: Seq<char>) -> Option<V>
        decreases env,
    {
        if !self.valid(env) {
            None
        } else if self.vars[env].contains_key(name) {
            Some(self.vars[env][name])
        } else {
            match self.outer[env] {
                Some(o) => if o < env { self.lookup(o as int, name) } else { None },
                None => None,
            }
        }
    }

    /// The innermost scope of the chain of `env` that defines `name`.
    pub open spec fn holder(self, env: int, name: Seq<char>) -> Option<int>
        decreases env,
    {
        if !self.valid(env) {
            None
        } else if self.vars[env].contains_key(name) {
            Some(env)
        } else {
            match self.outer[env] {
                Some(o) => if o < env { self.holder(o as int, name) } else { None },
                None => None,
            }
        }
    }

    /// The scope `depth` steps out from `env`, if the chain is that long.
    pub open spec fn ancestor(self, env: int, depth: nat) -> Option<int>
        decreases depth,
    {
        if !self.valid(env) {
            None
        } else if depth == 0 {
            Some(env)
        } else {
            match self.outer[env] {
                Some(o) => self.ancestor(o as int, (depth - 1) as nat),
                None => None,
            }
        }
    }

    /// Whether the chain of scopes from `env` passes through `target`.
    pub open spec fn reaches(self, env: int, target: int) -> bool
        decreases env,
    {
        if !self.valid(env) {
            false
        } else if env == target {
            true
        } else {
            match self.outer[env] {
                Some(o) => if o < env { self.reaches(o as int, target) } else { false },
                None => false,
            }
        }
    }

    /// `name` set to `v` in scope `env` itself.
    pub open spec fn define(self, env: int, name: Seq<char>, v: V) -> ScopeTree<V> {
        ScopeTree { vars: self.vars.update(env, self.vars[env].insert(name, v)), outer: self.outer }
    }

    /// A new scope nested in `outer` (or in none).
    pub open spec fn push_scope(self, outer: Option<usize>) -> ScopeTree<V> {
        ScopeTree { vars: self.vars.push(Map::empty()), outer: self.outer.push(outer) }
    }

    /// The scope `env` nested in `outer` instead.
    pub open spec fn set_outer(self, env: int, outer: usize) -> ScopeTree<V> {
        ScopeTree { vars: self.vars, outer: self.outer.update(env, Some(outer)) }
    }
}

/// Reading a name right after defining it in the same scope gives the value
/// that was defined.
pub proof fn law_lookup_after_define<V>(s: ScopeTree<V>, env: int, name: Seq<char>, v: V)
    requires
        s.wf(),
        s.valid(env),
    ensures
        s.define(env, name, v).lookup(env, name) == Some(v),
{
}

proof fn lemma_define_other<V>(s: ScopeTree<V>, env: int, name: Seq<char>, v: V, e: int, other: Seq<char>)
    requires
        s.wf(),
        s.valid(env),
    ensures
        other != name ==> s.define(env, name, v).lookup(e, other) == s.lookup(e, other),
        !s.reaches(e, env) ==> s.define(env, name, v).lookup(e, other) == s.lookup(e, other),
    decreases e,
{
    let t = s.define(env, name, v);
    if s.valid(e) {
        match s.outer[e] {
            Some(o) => {
                if o < e {
                    lemma_define_other(s, env, name, v, o as int, other);
                }
            },
            None => {},
        }
    }
}

/// Defining a name leaves every other name as it was, read from any scope; and
/// it leaves every name as it was when read from a scope whose chain does not
/// pass through the scope it was defined in.
pub proof fn law_define_is_local<V>(s: ScopeTree<V>, env: int, name: Seq<char>, v: V, e: int, other: Seq<char>)
    requires
        s.wf(),
        s.valid(env),
        other != name || !s.reaches(e, env),
    ensures
        s.define(env, name, v).lookup(e, other) == s.lookup(e, other),
{
    lemma_define_other(s, env, name, v, e, other);
}

pub proof fn lemma_holder_lookup<V>(s: ScopeTree<V>, env: int, name: Seq<char>)
    requires
        s.wf(),
    ensures
        s.lookup(env, name) is Some <==> s.holder(env, name) is Some,
        s.holder(env, name) matches Some(h) ==> s.valid(h) && s.vars[h].contains_key(name)
            && s.lookup(env, name) == Some(s.vars[h][name]) && s.reaches(env, h),
    decreases env,
{
    if s.valid(env) && !s.vars[env].contains_key(name) {
        match s.outer[env] {
            Some(o) => {
                if o < env {
                    lemma_holder_lookup(s, o as int, name);
                }
            },
            None => {},
        }
    }
}

/// A name read from the scope that holds it, after setting it there.
proof fn lemma_update_holder<V>(s: ScopeTree<V>, env: int, name: Seq<char>, v: V, h: int)
    requires
        s.wf(),
        s.holder(env, name) == Some(h),
    ensures
        s.define(h, name, v).lookup(env, name) == Some(v),
        s.define(h, name, v).holder(env, name) == Some(h),
    decreases env,
{
    lemma_holder_lookup(s, env, name);
    if env != h {
        match s.outer[env] {
            Some(o) => {
                lemma_update_holder(s, o as int, name, v, h);
            },
            None => {},
        }
    }
}

/// After assigning to a name that is defined in the chain of `env`, reading it
/// from `env` gives the value assigned.
pub proof fn law_lookup_after_update<V>(s: ScopeTree<V>, env: int, name: Seq<char>, v: V)
    requires
        s.wf(),
        s.lookup(env, name) is Some,
    ensures
        s.holder(env, name) is Some,
        s.define(s.holder(env, name)->0, name, v).lookup(env, name) == Some(v),
{
    lemma_holder_lookup(s, env, name);
    lemma_update_holder(s, env, name, v, s.holder(env, name)->0);
}

pub proof fn lemma_push_scope<V>(s: ScopeTree<V>, outer: Option<usize>, e: int, name: Seq<char>)
    requires
        s.wf(),
        outer matches Some(o) ==> s.valid(o as int),
    ensures
        s.valid(e) ==> s.push_scope(outer).lookup(e, name) == s.lookup(e, name),
        s.valid(e) ==> s.push_scope(outer).holder(e, name) == s.holder(e, name),
        s.valid(e) ==> s.push_scope(outer).ancestor(e, 0) == s.ancestor(e, 0),
        s.push_scope(outer).wf(),
    decreases e,
{
    let t = s.push_scope(outer);
    assert(t.wf()) by {
        assert forall|i: int| 0 <= i < t.len() && (#[trigger] t.outer[i]) is Some implies t.outer[i]->0 < i by {
            if i < s.len() {
                assert(t.outer[i] == s.outer[i]);
            }
        }
    }
    if s.valid(e) {
        assert(t.vars[e] == s.vars[e] && t.outer[e] == s.outer[e]);
        match s.outer[e] {
            Some(o) => {
                if o < e {
                    lemma_push_scope(s, outer, o as int, name);
                }
            },
            None => {},
        }
    }
}

/// Setting a name in a scope changes no read from an earlier scope: a chain
/// of scopes only ever steps to earlier ones.
pub proof fn law_later_scope_is_unseen<V>(s: ScopeTree<V>, n: int, name: Seq<char>, v: V, e: int, x: Seq<char>)
    requires
        s.wf(),
        s.valid(n),
        e < n,
    ensures
        s.define(n, name, v).lookup(e, x) == s.lookup(e, x),
    decreases e,
{
    let t = s.define(n, name, v);
    if s.valid(e) {
        assert(t.vars[e] == s.vars[e]);
        assert(t.outer[e] == s.outer[e]);
        if let Some(o) = s.outer[e] {
            if o < e {
                law_later_scope_is_unseen(s, n, name, v, o as int, x);
            }
        }
    }
}

/// A new scope nested in `env` reads every name as `env` does.
pub proof fn law_new_scope_inherits<V>(s: ScopeTree<V>, env: usize, name: Seq<char>)
    requires
        s.wf(),
        s.valid(env as int),
    ensures
        s.push_scope(Some(env)).lookup(s.len() as int, name) == s.lookup(env as int, name),
{
    lemma_push_scope(s, Some(env), env as int, name);
    let t = s.push_scope(Some(env));
    let n = s.len() as int;
    assert(t.vars[n] == Map::<Seq<char>, V>::empty());
    assert(t.outer[n] == Some(env));
    assert(!t.vars[n].contains_key(name));
}

/// Setting a name in a scope moves no scope: every scope is the same number
/// of steps out from every other as before.
pub proof fn lemma_ancestor_after_define<V>(s: ScopeTree<V>, env: int, depth: nat, a: int, name: Seq<char>, v: V)
    requires
        s.valid(a),
    ensures
        s.define(a, name, v).ancestor(env, depth) == s.ancestor(env, depth),
    decreases depth,
{
    if s.valid(env) && depth > 0 {
        if let Some(o) = s.outer[env] {
            lemma_ancestor_after_define(s, o as int, (depth - 1) as nat, a, name, v);
        }
    }
}

/// Variables and their scopes, with scopes nested in earlier ones. A scope is
/// named by its index; the first scope, index 0, holds the globals.
#[derive(Debug)]
pub struct Enviroment<V> {
    variables: Vec<StrMap<V>>,
    outers: Vec<Option<usize>>,
}

impl<V> View for Enviroment<V> {
    type V = ScopeTree<V>;

    closed spec fn view(&self) -> ScopeTree<V> {
        ScopeTree {
            vars: Seq::new(self.variables@.len(), |i: int| self.variables@[i].view()),
            outer: self.outers@,
        }
    }
}

impl<V> Enviroment<V> {
    pub closed spec fn wf(&self) -> bool {
        &&& self.variables@.len() == self.outers@.len()
        &&& self.view().wf()
        &&& forall|i: int| 0 <= i < self.variables@.len() ==> (#[trigger] self.variables@[i]).wf()
    }

    /// A well-formed store is a well-formed tree of scopes: every scope is
    /// nested in an earlier one.
    pub proof fn lemma_view_wf(&self)
        requires
            self.wf(),
        ensures
            self@.wf(),
    {
    }

    /// A store holding one scope, the globals, with no variables.
    pub fn new() -> (r: Self)
        ensures
            r.wf(),
            r@ == (ScopeTree::<V> { vars: Seq::empty(), outer: Seq::empty() }).push_scope(None),
    {
        let mut variables = Vec::new();
        variables.push(StrMap::new());
        let mut outers = Vec::new();
        outers.push(None);
        let r = Enviroment { variables, outers };
        assert(r@.vars =~= seq![Map::<Seq<char>, V>::empty()]);
        assert(r@.outer =~= seq![None::<usize>]);
        r
    }

    /// The number of scopes.
    pub fn len(&self) -> (r: usize)
        requires
            self.wf(),
        ensures
            r == self@.len(),
    {
        self.variables.len()
    }

    fn push_scope(&mut self, outer: Option<usize>) -> (r: usize)
        requires
            old(self).wf(),
            outer matches Some(o) ==> old(self)@.valid(o as int),
        ensures
            final(self).wf(),
            final(self)@ == old(self)@.push_scope(outer),
            r == old(self)@.len(),
    {
        proof {
            lemma_push_scope(self@, outer, 0, Seq::empty());
        }
        let r = self.variables.len();
        self.variables.push(StrMap::new());
        self.outers.push(outer);
        assert(self@.vars =~= old(self)@.push_scope(outer).vars);
        r
    }

    /// A new scope nested in no other one.
    pub fn fresh(&mut self) -> (r: usize)
        requires
            old(self).wf(),
        ensures
            final(self).wf(),
            final(self)@ == old(self)@.push_scope(None),
            r == old(self)@.len(),
    {
        self.push_scope(None)
    }

    /// A new scope nested in `env`.
    pub fn with_outer(&mut self, env: usize) -> (r: usize)
        requires
            old(self).wf(),
            old(self)@.valid(env as int),
        ensures
            final(self).wf(),
            final(self)@ == old(self)@.push_scope(Some(env)),
            r == old(self)@.len(),
    {
        self.push_scope(Some(env))
    }

    /// Sets `identifier` to `val` in scope `env` itself.
    pub fn define_var(&mut self, env: usize, identifier: &str, val: V)
        requires
            old(self).wf(),
            old(self)@.valid(env as int),
        ensures
            final(self).wf(),
            final(self)@ == old(self)@.define(env as int, identifier@, val),
    {
        let ghost s = self@;
        let mut m = StrMap::new();
        std::mem::swap(&mut m, &mut self.variables[env]);
        m.insert(identifier, val);
        let mut m2 = m;
        std::mem::swap(&mut m2, &mut self.variables[env]);
        assert(self@.vars =~= s.define(env as int, identifier@, val).vars);
        assert(self@.wf()) by {
            assert(self@.outer == s.outer);
        }
    }

    /// The value of `identifier` read from scope `env`.
    pub fn get_var_val(&self, env: usize, identifier: &str) -> (r: Option<&V>)
        requires
            self.wf(),
            self@.valid(env as int),
        ensures
            match r {
                Some(v) => self@.lookup(env as int, identifier@) == Some(*v),
                None => self@.lookup(env as int, identifier@) is None,
            },
            r is None <==> self@.holder(env as int, identifier@) is None,
    {
        match self.holder(env, identifier) {
            Some(h) => {
                let r = self.variables[h].get(identifier);
                proof {
                    lemma_holder_lookup(self@, env as int, identifier@);
                }
                r
            },
            None => {
                proof {
                    lemma_holder_lookup(self@, env as int, identifier@);
                }
                None
            },
        }
    }

    /// The scope of the chain of `env` that defines `identifier`.
    fn holder(&self, env: usize, identifier: &str) -> (r: Option<usize>)
        requires
            self.wf(),
            self@.valid(env as int),
        ensures
            match r {
                Some(h) => self@.holder(env as int, identifier@) == Some(h as int) && self@.valid(h as int),
                None => self@.holder(env as int, identifier@) is None,
            },
    {
        let mut cur = env;
        loop
            invariant
                self.wf(),
                self@.valid(cur as int),
                self@.holder(env as int, identifier@) == self@.holder(cur as int, identifier@),
            decreases cur,
        {
            assert(self@.vars[cur as int] == self.variables@[cur as int].view());
            if self.variables[cur].contains_key(identifier) {
                return Some(cur);
            }
            match self.outers[cur] {
                Some(o) => {
                    cur = o;
                },
                None => {
                    return None;
                },
            }
        }
    }

    /// The scope `depth` steps out from `env`.
    pub fn ancestor(&self, env: usize, depth: usize) -> (r: usize)
        requires
            self.wf(),
            self@.ancestor(env as int, depth as nat) is Some,
        ensures
            self@.ancestor(env as int, depth as nat) == Some(r as int),
            self@.valid(r as int),
    {
        proof {
            lemma_ancestor_valid(self@, env as int, depth as nat);
        }
        let mut cur = env;
        let mut i: usize = 0;
        while i < depth
            invariant
                self.wf(),
                i <= depth,
                self@.ancestor(env as int, depth as nat) == self@.ancestor(cur as int, (depth - i) as nat),
                self@.ancestor(cur as int, (depth - i) as nat) is Some,
                self@.valid(cur as int),
            decreases depth - i,
        {
            match self.outers[cur] {
                Some(o) => {
                    proof {
                        lemma_ancestor_valid(self@, o as int, (depth - i - 1) as nat);
                    }
                    cur = o;
                },
                None => {
                    assert(false);
                    return cur;
                },
            }
            i = i + 1;
        }
        cur
    }

    /// Whether the chain of scopes of `env` reaches `depth` steps out.
    pub fn has_ancestor(&self, env: usize, depth: usize) -> (r: bool)
        requires
            self.wf(),
            self@.valid(env as int),
        ensures
            r == self@.ancestor(env as int, depth as nat) is Some,
    {
        let mut cur = env;
        let mut i: usize = 0;
        while i < depth
            invariant
                self.wf(),
                i <= depth,
                self@.valid(cur as int),
                self@.ancestor(env as int, depth as nat) == self@.ancestor(cur as int, (depth - i) as nat),
            decreases depth - i,
        {
            match self.outers[cur] {
                Some(o) => {
                    cur = o;
                },
                None => {
                    return false;
                },
            }
            i = i + 1;
        }
        true
    }

    /// The value of `identifier` in scope `env` itself.
    pub fn get_var_val_here(&self, env: usize, identifier: &str) -> (r: Option<&V>)
        requires
            self.wf(),
            self@.valid(env as int),
        ensures
            match r {
                Some(v) => self@.vars[env as int].contains_key(identifier@) && *v == self@.vars[env as int][identifier@],
                None => !self@.vars[env as int].contains_key(identifier@),
            },
    {
        self.variables[env].get(identifier)
    }

    /// The value of `identifier` in the scope `depth` steps out from `env`.
    pub fn get_at(&self, env: usize, identifier: &str, depth: usize) -> (r: &V)
        requires
            self.wf(),
            self@.ancestor(env as int, depth as nat) matches Some(a)
                && self@.vars[a].contains_key(identifier@),
        ensures
            *r == self@.vars[self@.ancestor(env as int, depth as nat)->0][identifier@],
    {
        let a = self.ancestor(env, depth);
        assert(self@.vars[a as int] == self.variables@[a as int].view());
        self.variables[a].get(identifier).unwrap()
    }

    /// Sets `identifier` to `v` in the scope `depth` steps out from `env`.
    pub fn define_at(&mut self, env: usize, identifier: &str, v: V, depth: usize)
        requires
            old(self).wf(),
            old(self)@.ancestor(env as int, depth as nat) is Some,
        ensures
            final(self).wf(),
            final(self)@ == old(self)@.define(old(self)@.ancestor(env as int, depth as nat)->0, identifier@, v),
    {
        let a = self.ancestor(env, depth);
        proof {
            lemma_ancestor_valid(self@, env as int, depth as nat);
        }
        self.define_var(a, identifier, v);
    }

    /// Assigns `val` to `identifier` in the innermost scope of the chain of
    /// `env` that defines it; gives back the value it had there.
    pub fn update_var(&mut self, env: usize, identifier: &str, val: V) -> (r: Option<V>)
        requires
            old(self).wf(),
            old(self)@.valid(env as int),
            old(self)@.lookup(env as int, identifier@) is Some,
        ensures
            final(self).wf(),
            old(self)@.holder(env as int, identifier@) is Some,
            final(self)@ == old(self)@.define(old(self)@.holder(env as int, identifier@)->0, identifier@, val),
            r == old(self)@.lookup(env as int, identifier@),
            final(self)@.lookup(env as int, identifier@) == Some(val),
    {
        proof {
            lemma_holder_lookup(self@, env as int, identifier@);
            law_lookup_after_update(self@, env as int, identifier@, val);
        }
        match self.holder(env, identifier) {
            Some(h) => {
                let ghost s = self@;
                let mut m = StrMap::new();
                std::mem::swap(&mut m, &mut self.variables[h]);
                let r = m.insert(identifier, val);
                let mut m2 = m;
                std::mem::swap(&mut m2, &mut self.variables[h]);
                assert(self@.vars =~= s.define(h as int, identifier@, val).vars);
                r
            },
            None => {
                proof {
                    assert(false);
                }
                None
            },
        }
    }

    /// Nests scope `env` in `outer`. The outer scope must be an earlier one:
    /// that keeps every chain of scopes free of loops, so that every lookup
    /// ends.
    pub fn set_outer(&mut self, env: usize, outer: usize)
        requires
            old(self).wf(),
            old(self)@.valid(env as int),
            outer < env,
        ensures
            final(self).wf(),
            final(self)@ == old(self)@.set_outer(env as int, outer),
    {
        let ghost s = self@;
        self.outers.set(env, Some(outer));
        assert(self@.vars =~= s.vars);
        assert(self@.outer =~= s.set_outer(env as int, outer).outer);
        assert(self@.wf()) by {
            assert forall|i: int| 0 <= i < self@.len() && (#[trigger] self@.outer[i]) is Some implies self@.outer[i]->0 < i by {
                if i != env {
                    assert(self@.outer[i] == s.outer[i]);
                }
            }
        }
    }

    /// The scope that `env` is nested in.
    pub fn outer(&self, env: usize) -> (r: Option<usize>)
        requires
            self.wf(),
            self@.valid(env as int),
        ensures
            r == self@.outer[env as int],
    {
        self.outers[env]
    }
}

pub proof fn lemma_ancestor_valid<V>(s: ScopeTree<V>, env: int, depth: nat)
    ensures
        s.ancestor(env, depth) matches Some(a) ==> s.valid(a),
    decreases depth,
{
    if s.valid(env) && depth > 0 {
        match s.outer[env] {
            Some(o) => lemma_ancestor_valid(s, o as int, (depth - 1) as nat),
            None => {},
        }
    }
}

} // verus!
