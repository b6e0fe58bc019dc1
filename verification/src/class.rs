//! Classes and their instances.

use vstd::prelude::*;
use vstd::hash_map::StringHashMap;
use vstd::string::StringExecFns;
use crate::callable::{bound, Function};
use crate::heap::{Heap, HeapView};
use crate::types::{Callable, Identifier, Object, RuntimeError};

verus! {

/// A class: its name, the class it inherits from, and the methods it
/// declares itself, each a closure in the store.
pub struct Class {
    pub name: Identifier,
    pub methods: StringHashMap<usize>,
    pub superclass: Option<usize>,
}

/// A class as plain data.
pub struct ClassView {
    pub name: Seq<char>,
    pub methods: Map<Seq<char>, usize>,
    pub superclass: Option<usize>,
}

impl View for Class {
    type V = ClassView;

    open spec fn view(&self) -> ClassView {
        ClassView { name: self.name@, methods: self.methods@, superclass: self.superclass }
    }
}

/// An instance: the class it was made from and its fields.
pub struct ClassInstance {
    pub class: usize,
    pub fields: StringHashMap<Object>,
}

/// An instance as plain data.
pub struct InstanceView {
    pub class: usize,
    pub fields: Map<Seq<char>, Object>,
}

impl View for ClassInstance {
    type V = InstanceView;

    open spec fn view(&self) -> InstanceView {
        InstanceView { class: self.class, fields: self.fields@ }
    }
}

/// The method that `name` denotes on class `class`: the class's own method
/// of that name, else what the name denotes on its superclass.
pub open spec fn find_method(classes: Seq<ClassView>, class: int, name: Seq<char>) -> Option<usize>
    decreases class,
{
    if !(0 <= class < classes.len()) {
        None
    } else if classes[class].methods.contains_key(name) {
        Some(classes[class].methods[name])
    } else {
        match classes[class].superclass {
            Some(s) => if s < class {
                find_method(classes, s as int, name)
            } else {
                None
            },
            None => None,
        }
    }
}

/// Number of arguments that constructing an instance of `class` takes: the
/// arity of the initializer the class has or inherits, and zero without one.
pub open spec fn constructor_arity(heap: HeapView, class: int) -> nat {
    match find_method(heap.classes, class, "init"@) {
        Some(f) => if f < heap.functions.len() {
            heap.functions[f as int].spec_arity()
        } else {
            0
        },
        None => 0,
    }
}

/// The stores with `class` appended to the classes.
pub open spec fn with_class<'a>(heap: HeapView<'a>, class: ClassView) -> HeapView<'a> {
    HeapView { classes: heap.classes.push(class), ..heap }
}

/// The stores with a fresh instance of `class`, without fields, appended.
pub open spec fn with_instance<'a>(heap: HeapView<'a>, class: usize) -> HeapView<'a> {
    HeapView {
        instances: heap.instances.push(InstanceView { class, fields: Map::empty() }),
        ..heap
    }
}

/// The stores after field `name` of `instance` was set to `value`.
pub open spec fn with_field<'a>(
    heap: HeapView<'a>,
    instance: int,
    name: Seq<char>,
    value: Object,
) -> HeapView<'a> {
    HeapView {
        instances: heap.instances.update(
            instance,
            InstanceView {
                class: heap.instances[instance].class,
                fields: heap.instances[instance].fields.insert(name, value),
            },
        ),
        ..heap
    }
}

/// What reading property `name` of `instance` yields, and the stores
/// afterwards. A field wins over a method of the same name. A method comes
/// bound to the instance, which adds a scope and a closure to the stores.
/// An instance of a class that the stores do not hold, or a method that
/// they do not hold, is an inconsistency.
pub open spec fn property<'a>(heap: HeapView<'a>, instance: int, name: Seq<char>) -> (
    HeapView<'a>,
    Result<Object, RuntimeError>,
) {
    let record = heap.instances[instance];
    if record.fields.contains_key(name) {
        (heap, Ok(record.fields[name]))
    } else if record.class >= heap.classes.len() {
        (heap, Err(RuntimeError::Inconsistent))
    } else {
        match find_method(heap.classes, record.class as int, name) {
            Some(f) => if f < heap.functions.len() {
                (
                    bound(heap, f as int, instance as usize),
                    Ok(Object::Callable(Callable::Function(heap.functions.len() as usize))),
                )
            } else {
                (heap, Err(RuntimeError::Inconsistent))
            },
            None => (heap, Err(RuntimeError::UndefinedProperty)),
        }
    }
}

impl Class {
    /// Stores a class and returns its handle. The superclass, if any, must
    /// already be in the store.
    pub fn new(
        heap: &mut Heap,
        name: Identifier,
        superclass: Option<usize>,
        methods: StringHashMap<usize>,
    ) -> (id: usize)
        requires
            old(heap).wf(),
            superclass matches Some(s) ==> s < old(heap)@.classes.len(),
        ensures
            id == old(heap)@.classes.len(),
            final(heap)@ == with_class(
                old(heap)@,
                ClassView { name: name@, methods: methods@, superclass },
            ),
            final(heap).wf(),
    {
        let id = heap.classes.len();
        heap.classes.push(Class { name, methods, superclass });
        proof {
            heap.lemma_kept(*old(heap));
            assert(heap@.classes =~= old(heap)@.classes.push(
                ClassView { name: name@, methods: methods@, superclass },
            ));
        }
        id
    }

    /// Looks a method up on `class`, then on its superclass, and so on
    /// outwards; the nearest definition wins.
    pub fn find_method(heap: &Heap, class: usize, name: &Identifier) -> (method: Option<usize>)
        requires
            heap.wf(),
            class < heap@.classes.len(),
        ensures
            method == find_method(heap@.classes, class as int, name@),
    {
        let mut current: usize = class;
        loop
            invariant
                heap.wf(),
                current < heap@.classes.len(),
                find_method(heap@.classes, class as int, name@) == find_method(
                    heap@.classes,
                    current as int,
                    name@,
                ),
            decreases current,
        {
            let record = &heap.classes[current];
            assert(record@ == heap@.classes[current as int]);
            match record.methods.get(name.as_str()) {
                Some(f) => {
                    return Some(*f);
                },
                None => {},
            }
            match record.superclass {
                Some(s) => {
                    current = s;
                },
                None => {
                    return None;
                },
            }
        }
    }

    /// Number of arguments a call of the class must pass.
    pub fn arity(heap: &Heap, class: usize) -> (n: usize)
        requires
            heap.wf(),
            class < heap@.classes.len(),
        ensures
            n == constructor_arity(heap@, class as int),
    {
        let init = Identifier::new("init");
        match Class::find_method(heap, class, &init) {
            Some(f) => if f < heap.functions.len() {
                heap.functions[f].arity()
            } else {
                0
            },
            None => 0,
        }
    }
}

impl ClassInstance {
    /// Stores a new instance of `class`, without fields, and returns its
    /// handle.
    pub fn new(heap: &mut Heap, class: usize) -> (id: usize)
        requires
            old(heap).wf(),
        ensures
            id == old(heap)@.instances.len(),
            final(heap)@ == with_instance(old(heap)@, class),
            final(heap).wf(),
    {
        let id = heap.instances.len();
        heap.instances.push(ClassInstance { class, fields: StringHashMap::new() });
        proof {
            heap.lemma_kept(*old(heap));
            assert(heap@.instances =~= old(heap)@.instances.push(
                InstanceView { class, fields: Map::empty() },
            ));
        }
        id
    }

    /// Reads property `name` of `instance`: the field of that name if the
    /// instance has one, else the method of that name bound to the instance,
    /// else a failure.
    pub fn get(heap: &mut Heap, instance: usize, name: &Identifier) -> (value: Result<
        Object,
        RuntimeError,
    >)
        requires
            old(heap).wf(),
            instance < old(heap)@.instances.len(),
        ensures
            final(heap)@ == property(old(heap)@, instance as int, name@).0,
            value == property(old(heap)@, instance as int, name@).1,
            final(heap).wf(),
    {
        let record = &heap.instances[instance];
        assert(record@ == heap@.instances[instance as int]);
        match record.fields.get(name.as_str()) {
            Some(field) => {
                return Ok(*field);
            },
            None => {},
        }
        let class = record.class;
        if class >= heap.classes.len() {
            return Err(RuntimeError::Inconsistent);
        }
        match Class::find_method(heap, class, name) {
            Some(f) => {
                if f < heap.functions.len() {
                    Ok(Function::bind(heap, f, instance))
                } else {
                    Err(RuntimeError::Inconsistent)
                }
            },
            None => Err(RuntimeError::UndefinedProperty),
        }
    }

    /// Sets field `name` of `instance` to `value`, whether or not the
    /// instance's class has a method of that name.
    pub fn set(heap: &mut Heap, instance: usize, name: &Identifier, value: Object)
        requires
            old(heap).wf(),
            instance < old(heap)@.instances.len(),
        ensures
            final(heap)@ == with_field(old(heap)@, instance as int, name@, value),
            final(heap).wf(),
    {
        heap.instances[instance].fields.insert(name.clone().0, value);
        proof {
            assert(heap@.instances =~= with_field(
                old(heap)@,
                instance as int,
                name@,
                value,
            ).instances);
            heap.lemma_kept(*old(heap));
        }
    }
}

} // verus!
