//! Scopes: where variables live.
//!
//! Every scope that a program ever enters is a record in one store and is
//! referred to by its index there. A record is never removed, so a closure
//! that remembers the index of its defining scope keeps seeing that very
//! scope, with every later change made to it.

use vstd::prelude::*;
use vstd::hash_map::StringHashMap;
use crate::types::{Identifier, Object};

verus! {

/// Index of a scope in the store.
pub type EnvRef = usize;

/// One scope: its variables and the scope that encloses it.
pub struct Environment {
    pub parent: Option<EnvRef>,
    pub values: StringHashMap<Object>,
}

/// What a scope holds, as a mathematical map.
pub struct Scope {
    pub parent: Option<EnvRef>,
    pub values: Map<Seq<char>, Object>,
}

impl View for Environment {
    type V = Scope;

    open spec fn view(&self) -> Scope {
        Scope { parent: self.parent, values: self.values@ }
    }
}

/// The store of all scopes.
pub struct Scopes {
    pub records: Vec<Environment>,
}

impl View for Scopes {
    type V = Seq<Scope>;

    open spec fn view(&self) -> Seq<Scope> {
        Seq::new(self.records@.len(), |i: int| self.records@[i]@)
    }
}

/// Every scope was created after the scope that encloses it.
pub open spec fn well_linked(scopes: Seq<Scope>) -> bool {
    forall|i: int|
        0 <= i < scopes.len() ==> ((#[trigger] scopes[i]).parent matches Some(p) ==> p < i)
}

/// The scope reached from `env` by following `distance` parent links, or
/// `None` when the chain ends before.
pub open spec fn ancestor(scopes: Seq<Scope>, env: int, distance: nat) -> Option<int>
    decreases distance,
{
    if !(0 <= env < scopes.len()) {
        None
    } else if distance == 0 {
        Some(env)
    } else {
        match scopes[env].parent {
            Some(p) => ancestor(scopes, p as int, (distance - 1) as nat),
            None => None,
        }
    }
}

/// The innermost scope on the chain from `env` outwards that defines `name`.
pub open spec fn defining_scope(scopes: Seq<Scope>, env: int, name: Seq<char>) -> Option<int>
    decreases env,
{
    if !(0 <= env < scopes.len()) {
        None
    } else if scopes[env].values.contains_key(name) {
        Some(env)
    } else {
        match scopes[env].parent {
            Some(p) => if p < env {
                defining_scope(scopes, p as int, name)
            } else {
                None
            },
            None => None,
        }
    }
}

/// The value that `name` has in the innermost scope on the chain from `env`
/// outwards that defines it.
pub open spec fn lookup(scopes: Seq<Scope>, env: int, name: Seq<char>) -> Option<Object> {
    match defining_scope(scopes, env, name) {
        Some(s) => Some(scopes[s].values[name]),
        None => None,
    }
}

/// The value that `name` has in the scope `distance` links out from `env`.
/// Scopes in between are not consulted.
pub open spec fn lookup_at(scopes: Seq<Scope>, env: int, distance: nat, name: Seq<char>) -> Option<
    Object,
> {
    match ancestor(scopes, env, distance) {
        Some(s) => if scopes[s].values.contains_key(name) {
            Some(scopes[s].values[name])
        } else {
            None
        },
        None => None,
    }
}

/// The store after `name` was bound to `value` in scope `env`.
pub open spec fn bind(scopes: Seq<Scope>, env: int, name: Seq<char>, value: Object) -> Seq<Scope> {
    scopes.update(
        env,
        Scope { parent: scopes[env].parent, values: scopes[env].values.insert(name, value) },
    )
}

/// The store after `name` was bound to `value` in the scope `distance` links
/// out from `env`; unchanged when the chain ends before.
pub open spec fn bind_at(
    scopes: Seq<Scope>,
    env: int,
    distance: nat,
    name: Seq<char>,
    value: Object,
) -> Seq<Scope> {
    match ancestor(scopes, env, distance) {
        Some(s) => bind(scopes, s, name, value),
        None => scopes,
    }
}

/// The store after `value` replaced the value of `name` in the innermost
/// scope that defines it; unchanged when no scope on the chain does.
pub open spec fn rebind(scopes: Seq<Scope>, env: int, name: Seq<char>, value: Object) -> Seq<Scope> {
    match defining_scope(scopes, env, name) {
        Some(s) => bind(scopes, s, name, value),
        None => scopes,
    }
}

impl Scopes {
    /// A store without scopes.
    pub fn new() -> (scopes: Scopes)
        ensures
            scopes@ == Seq::<Scope>::empty(),
    {
        let scopes = Scopes { records: Vec::new() };
        assert(scopes@ =~= Seq::<Scope>::empty());
        scopes
    }

    /// Number of scopes created so far.
    pub fn len(&self) -> (n: usize)
        ensures
            n == self@.len(),
    {
        self.records.len()
    }

    /// The scope enclosing `env`.
    pub fn parent_of(&self, env: EnvRef) -> (parent: Option<EnvRef>)
        requires
            env < self@.len(),
        ensures
            parent == self@[env as int].parent,
    {
        self.records[env].parent
    }
}

impl Environment {
    /// Creates an empty scope enclosed by `parent` and returns its index.
    pub fn new_ref(scopes: &mut Scopes, parent: Option<EnvRef>) -> (env: EnvRef)
        requires
            well_linked(old(scopes)@),
            parent matches Some(p) ==> p < old(scopes)@.len(),
        ensures
            env == old(scopes)@.len(),
            final(scopes)@ == old(scopes)@.push(Scope { parent, values: Map::empty() }),
            well_linked(final(scopes)@),
    {
        let env = scopes.records.len();
        scopes.records.push(Environment { parent, values: StringHashMap::new() });
        assert(scopes@ =~= old(scopes)@.push(Scope { parent, values: Map::empty() }));
        env
    }

    /// Binds `name` to `value` in this scope, replacing any earlier binding
    /// of that name here. Enclosing scopes are left alone.
    pub fn define(&mut self, name: &Identifier, value: Object)
        ensures
            final(self)@ == (Scope {
                parent: old(self)@.parent,
                values: old(self)@.values.insert(name@, value),
            }),
    {
        self.values.insert(name.clone().0, value);
    }

    /// Binds `name` to `value` in scope `env` of the store.
    pub fn define_in(scopes: &mut Scopes, env: EnvRef, name: &Identifier, value: Object)
        requires
            env < old(scopes)@.len(),
            well_linked(old(scopes)@),
        ensures
            final(scopes)@ == bind(old(scopes)@, env as int, name@, value),
            final(scopes)@.len() == old(scopes)@.len(),
            well_linked(final(scopes)@),
    {
        scopes.records[env].define(name, value);
        assert(scopes@ =~= bind(old(scopes)@, env as int, name@, value));
    }

    /// Looks `name` up by walking outwards from `env`: the value in the
    /// innermost scope that defines it, or `None` if no scope on the chain does.
    pub fn get(scopes: &Scopes, env: EnvRef, name: &Identifier) -> (value: Option<Object>)
        requires
            env < scopes@.len(),
            well_linked(scopes@),
        ensures
            value == lookup(scopes@, env as int, name@),
    {
        let mut current: EnvRef = env;
        loop
            invariant
                current < scopes@.len(),
                well_linked(scopes@),
                defining_scope(scopes@, env as int, name@) == defining_scope(
                    scopes@,
                    current as int,
                    name@,
                ),
            decreases current,
        {
            let record = &scopes.records[current];
            assert(record@ == scopes@[current as int]);
            match record.values.get(name.as_str()) {
                Some(value) => {
                    return Some(*value);
                },
                None => {},
            }
            match record.parent {
                Some(p) => {
                    current = p;
                },
                None => {
                    return None;
                },
            }
        }
    }

    /// The scope `distance` links out from `env`, or `None` when the chain is
    /// shorter than that.
    pub fn ancestor(scopes: &Scopes, env: EnvRef, distance: usize) -> (scope: Option<EnvRef>)
        requires
            env < scopes@.len(),
            well_linked(scopes@),
        ensures
            scope matches Some(s) ==> s < scopes@.len(),
            scope.is_some() == ancestor(scopes@, env as int, distance as nat).is_some(),
            scope matches Some(s) ==> ancestor(scopes@, env as int, distance as nat) == Some(
                s as int,
            ),
    {
        let mut current: EnvRef = env;
        let mut left: usize = distance;
        while left > 0
            invariant
                current < scopes@.len(),
                well_linked(scopes@),
                ancestor(scopes@, env as int, distance as nat) == ancestor(
                    scopes@,
                    current as int,
                    left as nat,
                ),
            decreases left,
        {
            match scopes.records[current].parent {
                Some(p) => {
                    assert(scopes@[current as int].parent == Some(p));
                    current = p;
                    left = left - 1;
                },
                None => {
                    assert(scopes@[current as int].parent.is_none());
                    return None;
                },
            }
        }
        Some(current)
    }

    /// Reads `name` in the scope exactly `distance` links out from `env`,
    /// without searching. `None` means that the chain is shorter or that the
    /// scope does not define the name: the caller's distance was wrong.
    pub fn get_at(scopes: &Scopes, env: EnvRef, distance: usize, name: &Identifier) -> (value:
        Option<Object>)
        requires
            env < scopes@.len(),
            well_linked(scopes@),
        ensures
            value == lookup_at(scopes@, env as int, distance as nat, name@),
    {
        match Environment::ancestor(scopes, env, distance) {
            Some(s) => {
                let record = &scopes.records[s];
                assert(record@ == scopes@[s as int]);
                match record.values.get(name.as_str()) {
                    Some(value) => Some(*value),
                    None => None,
                }
            },
            None => None,
        }
    }

    /// Binds `name` to `value` in the scope exactly `distance` links out from
    /// `env`, without searching. Returns whether that scope exists; the store
    /// is unchanged when it does not.
    pub fn assign_at(
        scopes: &mut Scopes,
        env: EnvRef,
        distance: usize,
        name: &Identifier,
        value: Object,
    ) -> (found: bool)
        requires
            env < old(scopes)@.len(),
            well_linked(old(scopes)@),
        ensures
            found == ancestor(old(scopes)@, env as int, distance as nat).is_some(),
            final(scopes)@ == bind_at(old(scopes)@, env as int, distance as nat, name@, value),
            final(scopes)@.len() == old(scopes)@.len(),
            well_linked(final(scopes)@),
    {
        match Environment::ancestor(scopes, env, distance) {
            Some(s) => {
                Environment::define_in(scopes, s, name, value);
                true
            },
            None => false,
        }
    }

    /// Replaces the value of `name` in the innermost scope, from `env`
    /// outwards, that defines it, and returns the value it had. Returns `None`
    /// and changes nothing when no scope on the chain defines the name.
    pub fn mutate(scopes: &mut Scopes, env: EnvRef, name: &Identifier, value: Object) -> (previous:
        Option<Object>)
        requires
            env < old(scopes)@.len(),
            well_linked(old(scopes)@),
        ensures
            previous == lookup(old(scopes)@, env as int, name@),
            final(scopes)@ == rebind(old(scopes)@, env as int, name@, value),
            final(scopes)@.len() == old(scopes)@.len(),
            well_linked(final(scopes)@),
    {
        let mut current: EnvRef = env;
        loop
            invariant
                current < scopes@.len(),
                well_linked(scopes@),
                scopes@ == old(scopes)@,
                defining_scope(scopes@, env as int, name@) == defining_scope(
                    scopes@,
                    current as int,
                    name@,
                ),
            decreases current,
        {
            let record = &scopes.records[current];
            assert(record@ == scopes@[current as int]);
            let held = match record.values.get(name.as_str()) {
                Some(v) => Some(*v),
                None => None,
            };
            match held {
                Some(previous) => {
                    Environment::define_in(scopes, current, name, value);
                    return Some(previous);
                },
                None => {},
            }
            match scopes.records[current].parent {
                Some(p) => {
                    current = p;
                },
                None => {
                    return None;
                },
            }
        }
    }
}

impl Default for Environment {
    /// An empty scope that nothing encloses.
    fn default() -> (env: Self)
        ensures
            env@ == (Scope { parent: None, values: Map::empty() }),
    {
        Environment { parent: None, values: StringHashMap::new() }
    }
}

} // verus!
