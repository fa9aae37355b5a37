//! The scope chain: an arena of scope records addressed by stable index.
//!
//! The scope graph is a tree rooted at one global scope (index `0`).  A new
//! scope is created per block entry or function call and linked to its
//! enclosing scope by index; a closure stores the index of its defining
//! scope, so the scope outlives the call that created it.  `define` writes
//! the current scope only; `assign` walks the parent chain to the nearest
//! scope that already binds the name and never creates a binding.

use vstd::prelude::*;

verus! {

use crate::ast::Literal;
use crate::ast::LiteralV;
use crate::callable::Callable;
use crate::callable::CallableV;

/// A runtime value: a literal or a callable.
#[derive(Debug)]
pub enum Object {
    L(Literal),
    C(Callable),
}

/// The mathematical view of a runtime value.
#[verifier::ext_equal]
pub enum ObjectV {
    L(LiteralV),
    C(CallableV),
}

impl View for Object {
    type V = ObjectV;

    open spec fn view(&self) -> ObjectV {
        match self {
            Object::L(l) => ObjectV::L(l@),
            Object::C(c) => ObjectV::C(c@),
        }
    }
}

impl Clone for Object {
    /// A clone denotes the same value.
    fn clone(&self) -> (res: Self)
        ensures
            res@ == self@,
    {
        match self {
            Object::L(l) => Object::L(l.clone()),
            Object::C(c) => Object::C(c.clone()),
        }
    }
}

/// One scope record: the enclosing scope's index (`None` only for the
/// global scope) and the bindings made in this scope.  A binding is added
/// by pushing it at the end; the latest entry for a name is the one in
/// force.
#[derive(Debug)]
pub struct Scope {
    pub parent: Option<usize>,
    pub entries: Vec<(String, Object)>,
}

/// The mathematical view of a scope: the enclosing scope's index and the
/// map from names to values.
#[verifier::ext_equal]
pub struct ScopeV {
    pub parent: Option<int>,
    pub bindings: Map<Seq<char>, ObjectV>,
}

/// The map denoted by a list of bindings; a later entry overrides an
/// earlier one for the same name.
pub open spec fn entries_map(s: Seq<(String, Object)>) -> Map<Seq<char>, ObjectV>
    decreases s,
{
    if s.len() == 0 {
        Map::empty()
    } else {
        entries_map(s.drop_last()).insert(s.last().0@, s.last().1@)
    }
}

impl View for Scope {
    type V = ScopeV;

    open spec fn view(&self) -> ScopeV {
        ScopeV {
            parent: match self.parent {
                Some(p) => Some(p as int),
                None => None,
            },
            bindings: entries_map(self.entries@),
        }
    }
}

/// The whole scope arena.
#[derive(Debug)]
pub struct Environment {
    pub scopes: Vec<Scope>,
}

/// The views of the arena's scopes.
pub open spec fn view_scopes(s: Seq<Scope>) -> Seq<ScopeV>
    decreases s,
{
    if s.len() == 0 {
        Seq::empty()
    } else {
        view_scopes(s.drop_last()).push(s.last()@)
    }
}

/// Every element's view is the corresponding element of `view_scopes`.
pub proof fn lemma_view_scopes_index(s: Seq<Scope>)
    ensures
        view_scopes(s).len() == s.len(),
        forall|i: int| 0 <= i < s.len() ==> #[trigger] view_scopes(s)[i] == s[i]@,
    decreases s,
{
    if s.len() > 0 {
        lemma_view_scopes_index(s.drop_last());
        assert(view_scopes(s) == view_scopes(s.drop_last()).push(s.last()@));
        assert forall|i: int| 0 <= i < s.len() implies #[trigger] view_scopes(s)[i] == s[i]@ by {
            if i < s.len() - 1 {
                assert(s.drop_last()[i] == s[i]);
            } else {
                assert(s[i] == s.last());
            }
        }
    }
}

impl View for Environment {
    type V = Seq<ScopeV>;

    open spec fn view(&self) -> Seq<ScopeV> {
        view_scopes(self.scopes@)
    }
}

/// Well-formedness of the scope arena: the global scope is at index `0`
/// and every other scope's parent lies strictly before it, so parent
/// chains terminate.
pub open spec fn env_wf(e: Seq<ScopeV>) -> bool {
    &&& e.len() >= 1
    &&& e[0].parent is None
    &&& forall|i: int|
        1 <= i < e.len() ==> ((#[trigger] e[i].parent) matches Some(p) && 0 <= p < i)
}

/// The value bound to `name` in scope `s` or the nearest enclosing scope
/// that binds it.
pub open spec fn lookup_chain(e: Seq<ScopeV>, s: int, name: Seq<char>) -> Option<ObjectV>
    decreases (if s >= 0 { s + 1 } else { 0 }),
{
    if !(0 <= s < e.len()) {
        None
    } else if e[s].bindings.contains_key(name) {
        Some(e[s].bindings[name])
    } else {
        match e[s].parent {
            None => None,
            Some(p) => if 0 <= p < s {
                lookup_chain(e, p, name)
            } else {
                None
            },
        }
    }
}

/// The index of the scope whose binding a `lookup_chain` from `s` finds.
pub open spec fn defining_scope(e: Seq<ScopeV>, s: int, name: Seq<char>) -> Option<int>
    decreases (if s >= 0 { s + 1 } else { 0 }),
{
    if !(0 <= s < e.len()) {
        None
    } else if e[s].bindings.contains_key(name) {
        Some(s)
    } else {
        match e[s].parent {
            None => None,
            Some(p) => if 0 <= p < s {
                defining_scope(e, p, name)
            } else {
                None
            },
        }
    }
}

proof fn lemma_entries_map_get(s: Seq<(String, Object)>, n: Seq<char>, p: int)
    requires
        0 <= p < s.len(),
        s[p].0@ == n,
        forall|k: int| p < k < s.len() ==> (#[trigger] s[k].0)@ != n,
    ensures
        entries_map(s).contains_key(n),
        entries_map(s)[n] == s[p].1@,
    decreases s,
{
    if p == s.len() - 1 {
    } else {
        assert(s.drop_last()[p] == s[p]);
        assert(forall|k: int|
            p < k < s.len() - 1 ==> (#[trigger] s.drop_last()[k].0)@ != n) by {
            assert(forall|k: int| p < k < s.len() - 1 ==> s.drop_last()[k] == s[k]);
        }
        lemma_entries_map_get(s.drop_last(), n, p);
        assert(s.last().0@ != n);
    }
}

proof fn lemma_entries_map_absent(s: Seq<(String, Object)>, n: Seq<char>)
    requires
        forall|k: int| 0 <= k < s.len() ==> (#[trigger] s[k].0)@ != n,
    ensures
        !entries_map(s).contains_key(n),
    decreases s,
{
    if s.len() > 0 {
        assert(forall|k: int| 0 <= k < s.len() - 1 ==> s.drop_last()[k] == s[k]);
        lemma_entries_map_absent(s.drop_last(), n);
    }
}

/// The value bound to `name` in this single scope, if any.
fn scope_get(sc: &Scope, name: &String) -> (r: Option<Object>)
    ensures
        match r {
            Some(o) => sc@.bindings.contains_key(name@) && o@ == sc@.bindings[name@],
            None => !sc@.bindings.contains_key(name@),
        },
{
    let mut p = sc.entries.len();
    while p > 0
        invariant
            p <= sc.entries.len(),
            forall|k: int|
                p <= k < sc.entries@.len() ==> (#[trigger] sc.entries@[k].0)@ != name@,
        decreases p,
    {
        p = p - 1;
        if sc.entries[p].0 == *name {
            proof {
                lemma_entries_map_get(sc.entries@, name@, p as int);
            }
            return Some(sc.entries[p].1.clone());
        }
    }
    proof {
        lemma_entries_map_absent(sc.entries@, name@);
    }
    None
}

impl Environment {
    /// A fresh arena holding only the empty global scope.
    pub fn new() -> (r: Environment)
        ensures
            r@ =~= seq![ScopeV { parent: None, bindings: Map::empty() }],
            env_wf(r@),
    {
        let mut scopes: Vec<Scope> = Vec::new();
        scopes.push(Scope { parent: None, entries: Vec::new() });
        let r = Environment { scopes };
        proof {
            lemma_view_scopes_index(r.scopes@);
            assert(r.scopes@.last().entries@ =~= Seq::<(String, Object)>::empty());
            assert(entries_map(r.scopes@.last().entries@) =~= Map::<Seq<char>, ObjectV>::empty());
            assert(r.scopes@.last()@ == ScopeV { parent: None, bindings: Map::empty() });
        }
        r
    }

    /// Creates a new empty scope whose enclosing scope is `parent` and
    /// returns its index.
    pub fn push_scope(&mut self, parent: usize) -> (idx: usize)
        requires
            parent < old(self)@.len(),
            env_wf(old(self)@),
        ensures
            idx == old(self)@.len(),
            final(self)@ =~= old(self)@.push(
                ScopeV { parent: Some(parent as int), bindings: Map::empty() },
            ),
            env_wf(final(self)@),
    {
        proof {
            lemma_view_scopes_index(self.scopes@);
        }
        let idx = self.scopes.len();
        self.scopes.push(Scope { parent: Some(parent), entries: Vec::new() });
        proof {
            lemma_view_scopes_index(self.scopes@);
            assert(self.scopes@.drop_last() =~= old(self).scopes@);
            assert(self.scopes@.last().entries@ =~= Seq::<(String, Object)>::empty());
            assert(entries_map(self.scopes@.last().entries@) =~= Map::<
                Seq<char>,
                ObjectV,
            >::empty());
            assert(self.scopes@.last()@ == ScopeV {
                parent: Some(parent as int),
                bindings: Map::empty(),
            });
        }
        idx
    }

    /// Binds `name` to `value` in scope `scope` alone: no other scope
    /// changes, and no scope is added or removed.
    pub fn define(&mut self, scope: usize, name: String, value: Object)
        requires
            scope < old(self)@.len(),
        ensures
            final(self)@ =~= old(self)@.update(
                scope as int,
                ScopeV {
                    parent: old(self)@[scope as int].parent,
                    bindings: old(self)@[scope as int].bindings.insert(name@, value@),
                },
            ),
    {
        proof {
            lemma_view_scopes_index(self.scopes@);
        }
        let sc = &mut self.scopes[scope];
        sc.entries.push((name, value));
        proof {
            lemma_view_scopes_index(self.scopes@);
            assert(self.scopes@[scope as int].entries@.drop_last() =~= old(
                self,
            ).scopes@[scope as int].entries@);
            assert(forall|i: int|
                0 <= i < self.scopes@.len() && i != scope ==> self.scopes@[i]
                    == old(self).scopes@[i]);
        }
    }

    /// The value of `name` looked up from scope `scope` outward along the
    /// parent chain; `None` when no scope in the chain binds it.
    pub fn get(&self, scope: usize, name: &String) -> (r: Option<Object>)
        requires
            env_wf(self@),
            scope < self@.len(),
        ensures
            match r {
                Some(o) => lookup_chain(self@, scope as int, name@) == Some(o@),
                None => lookup_chain(self@, scope as int, name@) is None,
            },
        decreases scope,
    {
        proof {
            lemma_view_scopes_index(self.scopes@);
        }
        match scope_get(&self.scopes[scope], name) {
            Some(o) => Some(o),
            None => {
                match self.scopes[scope].parent {
                    None => None,
                    Some(p) => {
                        proof {
                            if scope > 0 {
                                assert(self@[scope as int].parent matches Some(q) && 0 <= q
                                    < scope);
                            } else {
                                assert(self@[0].parent is None);
                            }
                        }
                        self.get(p, name)
                    },
                }
            },
        }
    }

    /// Whether scope `scope` itself binds `name`.
    pub fn binds(&self, scope: usize, name: &String) -> (r: bool)
        requires
            scope < self@.len(),
        ensures
            r == self@[scope as int].bindings.contains_key(name@),
    {
        proof {
            lemma_view_scopes_index(self.scopes@);
        }
        match scope_get(&self.scopes[scope], name) {
            Some(_) => true,
            None => false,
        }
    }

    /// Overwrites `name` in the nearest scope along the parent chain that
    /// already binds it and reports `true`; reports `false` and changes
    /// nothing when no such scope exists.  Assignment never creates a
    /// binding.
    pub fn assign(&mut self, scope: usize, name: &String, value: Object) -> (ok: bool)
        requires
            env_wf(old(self)@),
            scope < old(self)@.len(),
        ensures
            match defining_scope(old(self)@, scope as int, name@) {
                Some(d) => ok && final(self)@ =~= old(self)@.update(
                    d,
                    ScopeV {
                        parent: old(self)@[d].parent,
                        bindings: old(self)@[d].bindings.insert(name@, value@),
                    },
                ),
                None => !ok && final(self)@ == old(self)@,
            },
        decreases scope,
    {
        proof {
            lemma_view_scopes_index(self.scopes@);
        }
        let has = match scope_get(&self.scopes[scope], name) {
            Some(_) => true,
            None => false,
        };
        if has {
            let cloned = name.clone();
            self.define(scope, cloned, value);
            true
        } else {
            match self.scopes[scope].parent {
                None => false,
                Some(p) => {
                    proof {
                        if scope > 0 {
                            assert(old(self)@[scope as int].parent matches Some(q) && 0 <= q
                                < scope);
                        } else {
                            assert(old(self)@[0].parent is None);
                        }
                    }
                    self.assign(p, name, value)
                },
            }
        }
    }
}


/// Binding a name in an existing scope keeps the arena well formed.
pub proof fn lemma_wf_update(e: Seq<ScopeV>, d: int, name: Seq<char>, v: ObjectV)
    requires
        env_wf(e),
        0 <= d < e.len(),
    ensures
        env_wf(
            e.update(
                d,
                ScopeV { parent: e[d].parent, bindings: e[d].bindings.insert(name, v) },
            ),
        ),
{
    let e2 = e.update(
        d,
        ScopeV { parent: e[d].parent, bindings: e[d].bindings.insert(name, v) },
    );
    assert(e2[0].parent is None);
    assert(forall|i: int| 1 <= i < e2.len() ==> (#[trigger] e2[i].parent) == e[i].parent);
}

/// Adding a scope whose parent is an existing scope keeps the arena well
/// formed.
pub proof fn lemma_wf_push(e: Seq<ScopeV>, p: int)
    requires
        env_wf(e),
        0 <= p < e.len(),
    ensures
        env_wf(e.push(ScopeV { parent: Some(p), bindings: Map::empty() })),
{
    let e2 = e.push(ScopeV { parent: Some(p), bindings: Map::empty() });
    assert(e2[0].parent is None);
    assert(forall|i: int| 1 <= i < e.len() ==> (#[trigger] e2[i].parent) == e[i].parent);
    assert(e2[e.len() as int].parent == Some(p));
}


/// A defining scope found by the chain walk is a real index.
pub proof fn lemma_defining_scope_in_range(e: Seq<ScopeV>, s: int, name: Seq<char>)
    ensures
        defining_scope(e, s, name) matches Some(d) ==> 0 <= d < e.len(),
    decreases (if s >= 0 { s + 1 } else { 0 }),
{
    if 0 <= s < e.len() && !e[s].bindings.contains_key(name) {
        match e[s].parent {
            Some(p) => {
                if 0 <= p < s {
                    lemma_defining_scope_in_range(e, p, name);
                }
            },
            None => {},
        }
    }
}

} // verus!
