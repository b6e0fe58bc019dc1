//! The stores that hold everything a running program creates.
//!
//! Scopes, closures, classes, instances and texts are records in append-only
//! stores; a value refers to a record by its index. Two holders of the same
//! index share the record, which is how a closure sees later assignments to
//! the variables it captured and how every copy of an instance sees the same
//! fields.

use vstd::prelude::*;
use vstd::string::StringExecFns;
use crate::callable::Function;
use crate::class::{Class, ClassInstance, ClassView, InstanceView};
use crate::environment::{
    ancestor, bind, bind_at, lookup, rebind, well_linked, EnvRef, Environment, Scope, Scopes,
};
use crate::types::{Identifier, Object};

verus! {

/// The stores.
pub struct Heap<'a> {
    pub scopes: Scopes,
    pub functions: Vec<Function<'a>>,
    pub classes: Vec<Class>,
    pub instances: Vec<ClassInstance>,
    pub strings: Vec<String>,
}

/// The stores as mathematical sequences.
pub struct HeapView<'a> {
    pub scopes: Seq<Scope>,
    pub functions: Seq<Function<'a>>,
    pub classes: Seq<ClassView>,
    pub instances: Seq<InstanceView>,
    pub strings: Seq<Seq<char>>,
}

impl<'a> View for Heap<'a> {
    type V = HeapView<'a>;

    open spec fn view(&self) -> HeapView<'a> {
        HeapView {
            scopes: self.scopes@,
            functions: self.functions@,
            classes: Seq::new(self.classes@.len(), |i: int| self.classes@[i]@),
            instances: Seq::new(self.instances@.len(), |i: int| self.instances@[i]@),
            strings: Seq::new(self.strings@.len(), |i: int| self.strings@[i]@),
        }
    }
}

impl<'a> HeapView<'a> {
    /// Scopes and classes only point backwards, and every closure points at
    /// an existing scope.
    pub open spec fn wf(self) -> bool {
        &&& self.scopes.len() <= usize::MAX
        &&& self.functions.len() <= usize::MAX
        &&& self.classes.len() <= usize::MAX
        &&& self.instances.len() <= usize::MAX
        &&& self.strings.len() <= usize::MAX
        &&& well_linked(self.scopes)
        &&& forall|f: int|
            0 <= f < self.functions.len() ==> (#[trigger] self.functions[f]).closure
                < self.scopes.len()
        &&& forall|c: int|
            0 <= c < self.classes.len() ==> ((#[trigger] self.classes[c]).superclass matches Some(
                s,
            ) ==> s < c)
    }

    /// The stores with `text` appended to the texts.
    pub open spec fn with_text(self, text: Seq<char>) -> HeapView<'a> {
        HeapView { strings: self.strings.push(text), ..self }
    }

    /// The stores with `scopes` in place of the scopes.
    pub open spec fn with_scopes(self, scopes: Seq<Scope>) -> HeapView<'a> {
        HeapView { scopes, ..self }
    }

    /// The stores with `function` appended to the closures.
    pub open spec fn with_function(self, function: Function<'a>) -> HeapView<'a> {
        HeapView { functions: self.functions.push(function), ..self }
    }
}

impl<'a> Heap<'a> {
    /// Whether the stores are well formed.
    pub open spec fn wf(&self) -> bool {
        self@.wf()
    }

    /// What a change to some of the stores leaves as it was: each store
    /// that holds the records it held looks as it did; no store holds more
    /// records than an index can count; and stores that were well formed
    /// still are if closures and classes are the same and the scopes, still
    /// linked backwards, are no fewer.
    pub proof fn lemma_kept(&self, before: Heap<'a>)
        ensures
            self.classes@ == before.classes@ ==> self@.classes == before@.classes,
            self.instances@ == before.instances@ ==> self@.instances == before@.instances,
            self.strings@ == before.strings@ ==> self@.strings == before@.strings,
            self@.scopes.len() <= usize::MAX,
            self@.functions.len() <= usize::MAX,
            self@.classes.len() <= usize::MAX,
            self@.instances.len() <= usize::MAX,
            self@.strings.len() <= usize::MAX,
            before.wf() && self.functions@ == before.functions@ && self.classes@ == before.classes@
                && well_linked(self@.scopes) && self@.scopes.len() >= before@.scopes.len()
                ==> self.wf(),
    {
        assert(self.scopes.records.len() == self.scopes.records@.len());
        assert(self.functions.len() == self.functions@.len());
        assert(self.classes.len() == self.classes@.len());
        assert(self.instances.len() == self.instances@.len());
        assert(self.strings.len() == self.strings@.len());
        if self.classes@ == before.classes@ {
            assert(self@.classes =~= before@.classes);
        }
        if self.instances@ == before.instances@ {
            assert(self@.instances =~= before@.instances);
        }
        if self.strings@ == before.strings@ {
            assert(self@.strings =~= before@.strings);
        }
    }

    /// Empty stores.
    pub fn new() -> (heap: Heap<'a>)
        ensures
            heap@.scopes.len() == 0,
            heap@.functions.len() == 0,
            heap@.classes.len() == 0,
            heap@.instances.len() == 0,
            heap@.strings.len() == 0,
            heap.wf(),
    {
        Heap {
            scopes: Scopes::new(),
            functions: Vec::new(),
            classes: Vec::new(),
            instances: Vec::new(),
            strings: Vec::new(),
        }
    }

    /// Creates an empty scope enclosed by `parent`.
    pub fn new_scope(&mut self, parent: Option<EnvRef>) -> (env: EnvRef)
        requires
            old(self).wf(),
            parent matches Some(p) ==> p < old(self)@.scopes.len(),
        ensures
            env == old(self)@.scopes.len(),
            final(self)@ == old(self)@.with_scopes(
                old(self)@.scopes.push(Scope { parent, values: Map::empty() }),
            ),
            final(self).wf(),
    {
        let env = Environment::new_ref(&mut self.scopes, parent);
        proof {
            self.lemma_kept(*old(self));
        }
        env
    }

    /// Binds `name` to `value` in scope `env`.
    pub fn define(&mut self, env: EnvRef, name: &Identifier, value: Object)
        requires
            old(self).wf(),
            env < old(self)@.scopes.len(),
        ensures
            final(self)@ == old(self)@.with_scopes(bind(old(self)@.scopes, env as int, name@, value)),
            final(self)@.scopes.len() == old(self)@.scopes.len(),
            final(self).wf(),
    {
        Environment::define_in(&mut self.scopes, env, name, value);
        proof {
            self.lemma_kept(*old(self));
        }
    }

    /// Binds `name` to `value` in the scope `distance` links out from `env`
    /// and returns whether that scope exists.
    pub fn assign_at(&mut self, env: EnvRef, distance: usize, name: &Identifier, value: Object) -> (found:
        bool)
        requires
            old(self).wf(),
            env < old(self)@.scopes.len(),
        ensures
            found == ancestor(old(self)@.scopes, env as int, distance as nat).is_some(),
            final(self)@ == old(self)@.with_scopes(
                bind_at(old(self)@.scopes, env as int, distance as nat, name@, value),
            ),
            final(self)@.scopes.len() == old(self)@.scopes.len(),
            final(self).wf(),
    {
        let found = Environment::assign_at(&mut self.scopes, env, distance, name, value);
        proof {
            self.lemma_kept(*old(self));
        }
        found
    }

    /// Replaces the value of `name` in the innermost scope, from `env`
    /// outwards, that defines it, and returns the value it had.
    pub fn mutate(&mut self, env: EnvRef, name: &Identifier, value: Object) -> (previous: Option<
        Object,
    >)
        requires
            old(self).wf(),
            env < old(self)@.scopes.len(),
        ensures
            previous == lookup(old(self)@.scopes, env as int, name@),
            final(self)@ == old(self)@.with_scopes(
                rebind(old(self)@.scopes, env as int, name@, value),
            ),
            final(self)@.scopes.len() == old(self)@.scopes.len(),
            final(self).wf(),
    {
        let previous = Environment::mutate(&mut self.scopes, env, name, value);
        proof {
            self.lemma_kept(*old(self));
        }
        previous
    }

    /// Stores `text` and returns the string value that refers to it.
    pub fn add_text(&mut self, text: String) -> (value: Object)
        ensures
            final(self)@ == old(self)@.with_text(text@),
            value == Object::String(old(self)@.strings.len() as usize),
            old(self).wf() ==> final(self).wf(),
    {
        let id = self.strings.len();
        self.strings.push(text);
        proof {
            assert(self@.strings =~= old(self)@.strings.push(text@));
            self.lemma_kept(*old(self));
        }
        Object::String(id)
    }

    /// The text that a string value refers to.
    pub fn text(&self, id: usize) -> (text: &String)
        requires
            id < self@.strings.len(),
        ensures
            text@ == self@.strings[id as int],
    {
        &self.strings[id]
    }

    /// Whether two stored texts hold the same characters.
    pub fn same_text(&self, a: usize, b: usize) -> (same: bool)
        requires
            a < self@.strings.len(),
            b < self@.strings.len(),
        ensures
            same == (self@.strings[a as int] == self@.strings[b as int]),
    {
        self.strings[a] == self.strings[b]
    }

    /// Stores the text made of text `a` followed by text `b` and returns the
    /// string value that refers to it.
    pub fn concat(&mut self, a: usize, b: usize) -> (value: Object)
        requires
            a < old(self)@.strings.len(),
            b < old(self)@.strings.len(),
        ensures
            final(self)@ == old(self)@.with_text(
                old(self)@.strings[a as int] + old(self)@.strings[b as int],
            ),
            value == Object::String(old(self)@.strings.len() as usize),
            old(self).wf() ==> final(self).wf(),
    {
        let mut text = self.strings[a].clone();
        text.append(self.strings[b].as_str());
        self.add_text(text)
    }
}

} // verus!
