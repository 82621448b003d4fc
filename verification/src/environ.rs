//! The chained name→value store implementing lexical scoping.
//!
//! An environment is a non-empty stack of scopes; the root scope sits at the
//! bottom and the innermost scope on top.  A name resolves by searching the
//! top scope first and then each enclosing scope in turn, stopping at the
//! first match.  Its mathematical model ([`EnvV`]) is a sequence of scopes,
//! each a sequence of name/value pairs searched front to back.

use vstd::prelude::*;
use vstd::pervasive::VecAdditionalExecFns;
use crate::token::{Object, Token, Value, bytes_eq, clone_bytes};
use crate::error::{RuntimeError, RuntimeErrorKind, RuntimeErrorKindV, RuntimeErrorV};

verus! {

/// One scope: name/value pairs, searched front to back.
pub type ScopeV = Seq<(Seq<u8>, Value)>;

/// A whole environment: scopes from the root (first) to the innermost
/// (last).
pub type EnvV = Seq<ScopeV>;

/// Index of the first pair in `sc` whose name is `name`, or -1 if none.
pub open spec fn scope_index(sc: ScopeV, name: Seq<u8>) -> int
    decreases sc.len(),
{
    if sc.len() == 0 {
        -1
    } else if sc[0].0 == name {
        0
    } else {
        let r = scope_index(sc.drop_first(), name);
        if r < 0 {
            -1
        } else {
            r + 1
        }
    }
}

/// The value bound to `name` in `sc`, if any.
pub open spec fn scope_lookup(sc: ScopeV, name: Seq<u8>) -> Option<Value> {
    let i = scope_index(sc, name);
    if i < 0 {
        None
    } else {
        Some(sc[i].1)
    }
}

/// `sc` with `name` bound to `v`: overwrites the first binding of `name`,
/// or appends one when the scope does not bind it yet.
pub open spec fn scope_define(sc: ScopeV, name: Seq<u8>, v: Value) -> ScopeV {
    let i = scope_index(sc, name);
    if i < 0 {
        sc.push((name, v))
    } else {
        sc.update(i, (name, v))
    }
}

/// The value `name` resolves to in `env`: the innermost binding wins.
pub open spec fn env_lookup(env: EnvV, name: Seq<u8>) -> Option<Value>
    decreases env.len(),
{
    if env.len() == 0 {
        None
    } else {
        match scope_lookup(env.last(), name) {
            Some(v) => Some(v),
            None => env_lookup(env.drop_last(), name),
        }
    }
}

/// `env` with `name` bound to `v` in the innermost scope only.
pub open spec fn env_define(env: EnvV, name: Seq<u8>, v: Value) -> EnvV {
    env.update(env.len() - 1, scope_define(env.last(), name, v))
}

/// `env` with the innermost binding of `name` overwritten by `v`, or `None`
/// when no scope binds `name` (assignment never implicitly declares).
pub open spec fn env_assign(env: EnvV, name: Seq<u8>, v: Value) -> Option<EnvV>
    decreases env.len(),
{
    if env.len() == 0 {
        None
    } else if scope_index(env.last(), name) >= 0 {
        Some(env.update(env.len() - 1, env.last().update(scope_index(env.last(), name), (name, v))))
    } else {
        match env_assign(env.drop_last(), name, v) {
            Some(e) => Some(e.push(env.last())),
            None => None,
        }
    }
}

/// The environment holding exactly one empty scope: the fresh root.
pub open spec fn root_env() -> EnvV {
    seq![Seq::<(Seq<u8>, Value)>::empty()]
}

/// `scope_index` finds the first binding: it is -1 exactly when no pair
/// matches, and otherwise points at the first matching pair.
pub proof fn lemma_scope_index(sc: ScopeV, name: Seq<u8>)
    ensures
        scope_index(sc, name) == -1 || (0 <= scope_index(sc, name) < sc.len()),
        scope_index(sc, name) == -1 ==> forall|j: int| 0 <= j < sc.len() ==> sc[j].0 != name,
        scope_index(sc, name) >= 0 ==> sc[scope_index(sc, name)].0 == name,
        scope_index(sc, name) >= 0 ==> forall|j: int|
            0 <= j < scope_index(sc, name) ==> sc[j].0 != name,
    decreases sc.len(),
{
    if sc.len() > 0 && sc[0].0 != name {
        lemma_scope_index(sc.drop_first(), name);
        let r = scope_index(sc.drop_first(), name);
        if r < 0 {
            assert forall|j: int| 0 <= j < sc.len() implies sc[j].0 != name by {
                if j > 0 {
                    assert(sc.drop_first()[j - 1] == sc[j]);
                }
            }
        } else {
            assert(sc.drop_first()[r] == sc[r + 1]);
            assert forall|j: int| 0 <= j < r + 1 implies sc[j].0 != name by {
                if j > 0 {
                    assert(sc.drop_first()[j - 1] == sc[j]);
                }
            }
        }
    }
}

/// When every scope above `i` (exclusive) lacks `name` and scope `i` binds
/// it, resolution lands in scope `i`.
pub proof fn lemma_env_lookup_at(env: EnvV, name: Seq<u8>, i: int)
    requires
        0 <= i < env.len(),
        scope_index(env[i], name) >= 0,
        forall|k: int| i < k < env.len() ==> scope_index(#[trigger] env[k], name) < 0,
    ensures
        env_lookup(env, name) == Some(env[i][scope_index(env[i], name)].1),
    decreases env.len(),
{
    if i == env.len() - 1 {
    } else {
        lemma_env_lookup_at(env.drop_last(), name, i);
    }
}

/// When no scope binds `name`, resolution fails.
pub proof fn lemma_env_lookup_none(env: EnvV, name: Seq<u8>)
    requires
        forall|k: int| 0 <= k < env.len() ==> scope_index(#[trigger] env[k], name) < 0,
    ensures
        env_lookup(env, name) == None::<Value>,
    decreases env.len(),
{
    if env.len() > 0 {
        lemma_env_lookup_none(env.drop_last(), name);
    }
}

/// When every scope above `i` (exclusive) lacks `name` and scope `i` binds
/// it, assignment overwrites exactly that binding.
pub proof fn lemma_env_assign_at(env: EnvV, name: Seq<u8>, v: Value, i: int)
    requires
        0 <= i < env.len(),
        scope_index(env[i], name) >= 0,
        forall|k: int| i < k < env.len() ==> scope_index(#[trigger] env[k], name) < 0,
    ensures
        env_assign(env, name, v) == Some(
            env.update(i, env[i].update(scope_index(env[i], name), (name, v))),
        ),
    decreases env.len(),
{
    if i == env.len() - 1 {
    } else {
        lemma_env_assign_at(env.drop_last(), name, v, i);
        assert(env.drop_last().update(i, env[i].update(scope_index(env[i], name), (name, v))).push(
            env.last(),
        ) =~= env.update(i, env[i].update(scope_index(env[i], name), (name, v))));
    }
}

/// When no scope binds `name`, assignment fails and changes nothing.
pub proof fn lemma_env_assign_none(env: EnvV, name: Seq<u8>, v: Value)
    requires
        forall|k: int| 0 <= k < env.len() ==> scope_index(#[trigger] env[k], name) < 0,
    ensures
        env_assign(env, name, v) == None::<EnvV>,
    decreases env.len(),
{
    if env.len() > 0 {
        lemma_env_assign_none(env.drop_last(), name, v);
    }
}

/// The view of one executable scope.
pub open spec fn scope_view(s: Seq<(Vec<u8>, Object)>) -> ScopeV {
    s.map_values(|p: (Vec<u8>, Object)| (p.0@, p.1@))
}

/// The chained name→value store.  The bottom scope is the root; evaluation
/// of a block pushes a child scope and pops it on exit.
pub struct Environment {
    scopes: Vec<Vec<(Vec<u8>, Object)>>,
}

impl View for Environment {
    type V = EnvV;

    closed spec fn view(&self) -> EnvV {
        self.scopes@.map_values(|s: Vec<(Vec<u8>, Object)>| scope_view(s@))
    }
}

/// Finds the first pair in `sc` named `name`.
fn scope_find(sc: &Vec<(Vec<u8>, Object)>, name: &Vec<u8>) -> (r: Option<usize>)
    ensures
        match r {
            Some(j) => scope_index(scope_view(sc@), name@) == j as int,
            None => scope_index(scope_view(sc@), name@) == -1,
        },
{
    proof {
        lemma_scope_index(scope_view(sc@), name@);
    }
    let mut j: usize = 0;
    while j < sc.len()
        invariant
            j <= sc.len(),
            forall|k: int| 0 <= k < j ==> scope_view(sc@)[k].0 != name@,
            scope_index(scope_view(sc@), name@) == -1 || (0 <= scope_index(scope_view(sc@), name@)
                < sc@.len()),
            scope_index(scope_view(sc@), name@) == -1 ==> forall|k: int|
                0 <= k < sc@.len() ==> scope_view(sc@)[k].0 != name@,
            scope_index(scope_view(sc@), name@) >= 0 ==> scope_view(sc@)[scope_index(
                scope_view(sc@),
                name@,
            )].0 == name@,
            scope_index(scope_view(sc@), name@) >= 0 ==> forall|k: int|
                0 <= k < scope_index(scope_view(sc@), name@) ==> scope_view(sc@)[k].0 != name@,
        decreases sc.len() - j,
    {
        if bytes_eq(&sc[j].0, name) {
            proof {
                assert(scope_view(sc@)[j as int] == (sc@[j as int].0@, sc@[j as int].1@));
            }
            return Some(j);
        }
        proof {
            assert(scope_view(sc@)[j as int] == (sc@[j as int].0@, sc@[j as int].1@));
        }
        j = j + 1;
    }
    None
}

impl Environment {
    /// A fresh environment: one empty root scope and no parent.
    pub fn new() -> (e: Environment)
        ensures
            e@ == root_env(),
    {
        let mut scopes: Vec<Vec<(Vec<u8>, Object)>> = Vec::new();
        scopes.push(Vec::new());
        let e = Environment { scopes };
        proof {
            assert(e@ =~~= root_env());
        }
        e
    }

    /// Enters a block: pushes a fresh, empty innermost scope.
    pub fn push_scope(&mut self)
        ensures
            final(self)@ == old(self)@.push(Seq::<(Seq<u8>, Value)>::empty()),
    {
        self.scopes.push(Vec::new());
        proof {
            assert(final(self)@ =~~= old(self)@.push(Seq::<(Seq<u8>, Value)>::empty()));
        }
    }

    /// Leaves a block: discards the innermost scope.  The root scope is
    /// never discarded.
    pub fn pop_scope(&mut self)
        requires
            old(self)@.len() >= 2,
        ensures
            final(self)@ == old(self)@.drop_last(),
    {
        let _ = self.scopes.pop();
        proof {
            assert(final(self)@ =~~= old(self)@.drop_last());
        }
    }

    /// Inserts or overwrites `name` in the innermost scope only; never
    /// fails.
    pub fn define(&mut self, name: &Vec<u8>, object: Object)
        requires
            old(self)@.len() >= 1,
        ensures
            final(self)@ == env_define(old(self)@, name@, object@),
    {
        let mut sc = match self.scopes.pop() {
            Some(sc) => sc,
            None => Vec::new(),  // unreachable: the environment is never empty
        };
        let ghost scv = scope_view(sc@);
        proof {
            assert(scv == old(self)@.last());
            lemma_scope_index(scv, name@);
        }
        match scope_find(&sc, name) {
            Some(j) => {
                sc.set(j, (clone_bytes(name), object));
                proof {
                    assert(scope_view(sc@) =~~= scope_define(scv, name@, object@));
                }
            },
            None => {
                sc.push((clone_bytes(name), object));
                proof {
                    assert(scope_view(sc@) =~~= scope_define(scv, name@, object@));
                }
            },
        }
        self.scopes.push(sc);
        proof {
            assert(final(self)@ =~~= env_define(old(self)@, name@, object@));
        }
    }

    /// Resolves `name` through the scope chain, innermost first; fails with
    /// an undefined-variable error naming the token when no scope binds it.
    pub fn get(&self, name: &Token) -> (r: Result<Object, RuntimeError>)
        ensures
            match r {
                Ok(o) => env_lookup(self@, name@.lexeme) == Some(o@),
                Err(e) => env_lookup(self@, name@.lexeme) == None::<Value> && e@ == (RuntimeErrorV {
                    kind: RuntimeErrorKindV::UndefinedVariable { name: name@.lexeme },
                    line: name@.line,
                }),
            },
    {
        let mut k: usize = self.scopes.len();
        while k > 0
            invariant
                k <= self.scopes@.len(),
                self@.len() == self.scopes@.len(),
                forall|m: int| k <= m < self@.len() ==> scope_index(#[trigger] self@[m],
                    name@.lexeme) < 0,
            decreases k,
        {
            let sc = &self.scopes[k - 1];
            proof {
                assert(scope_view(sc@) == self@[k - 1]);
            }
            match scope_find(sc, &name.lexeme) {
                Some(j) => {
                    proof {
                        lemma_scope_index(self@[k - 1], name@.lexeme);
                        lemma_env_lookup_at(self@, name@.lexeme, k - 1);
                    }
                    return Ok(sc[j].1.dup());
                },
                None => {},
            }
            k = k - 1;
        }
        proof {
            lemma_env_lookup_none(self@, name@.lexeme);
        }
        Err(RuntimeError {
            kind: RuntimeErrorKind::UndefinedVariable { name: clone_bytes(&name.lexeme) },
            line: name.line,
        })
    }

    /// Overwrites the innermost binding of the token's name; fails with an
    /// undefined-variable error (and changes nothing) when no scope binds
    /// it — assignment never implicitly declares.
    pub fn assign(&mut self, name: &Token, object: Object) -> (r: Result<(), RuntimeError>)
        ensures
            match r {
                Ok(_) => env_assign(old(self)@, name@.lexeme, object@) == Some(final(self)@),
                Err(e) => env_assign(old(self)@, name@.lexeme, object@) == None::<EnvV>
                    && final(self)@ == old(self)@ && e@ == (RuntimeErrorV {
                    kind: RuntimeErrorKindV::UndefinedVariable { name: name@.lexeme },
                    line: name@.line,
                }),
            },
    {
        let mut k: usize = self.scopes.len();
        while k > 0
            invariant
                k <= self.scopes@.len(),
                self@.len() == self.scopes@.len(),
                self@ == old(self)@,
                self == old(self),
                forall|m: int| k <= m < self@.len() ==> scope_index(#[trigger] self@[m],
                    name@.lexeme) < 0,
            decreases k,
        {
            let found = scope_find(&self.scopes[k - 1], &name.lexeme);
            proof {
                assert(scope_view(self.scopes@[k - 1 as int]@) == self@[k - 1]);
            }
            match found {
                Some(j) => {
                    proof {
                        lemma_scope_index(self@[k - 1], name@.lexeme);
                        lemma_env_assign_at(old(self)@, name@.lexeme, object@, k - 1);
                    }
                    let mut sc = self.scopes.remove(k - 1);
                    sc.set(j, (clone_bytes(&name.lexeme), object));
                    self.scopes.insert(k - 1, sc);
                    proof {
                        assert(final(self)@ =~~= old(self)@.update(
                            k - 1,
                            old(self)@[k - 1].update(
                                scope_index(old(self)@[k - 1], name@.lexeme),
                                (name@.lexeme, object@),
                            ),
                        ));
                    }
                    return Ok(());
                },
                None => {},
            }
            k = k - 1;
        }
        proof {
            lemma_env_assign_none(self@, name@.lexeme, object@);
        }
        Err(RuntimeError {
            kind: RuntimeErrorKind::UndefinedVariable { name: clone_bytes(&name.lexeme) },
            line: name.line,
        })
    }

    /// The number of scopes on the chain (the root counts as one).
    pub fn depth(&self) -> (n: usize)
        ensures
            n == self@.len(),
    {
        self.scopes.len()
    }
}

} // verus!
