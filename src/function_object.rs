use vstd::prelude::*;
use crate::value::{ObjectRef, MethodRef, ScopeRef, ClassRef, Value, Error, prototype_key, prototype_name};
use crate::object::{Heap, Prototypes, ScriptObjectData, FunctionObjectData, lemma_property_within, lemma_lookup_step};

verus! {

/// Invocable code: a method, the scope it closed over, and an optional receiver
/// that overrides the one supplied at a call site.
#[derive(Clone, Copy, Debug, PartialEq, Eq, Structural)]
pub struct Executable {
    pub method: MethodRef,
    pub scope: Option<ScopeRef>,
    pub receiver: Option<ObjectRef>,
}

/// A call ready to run: the code, the receiver it runs with, its arguments,
/// the subclass marker, and the function object being called.
#[derive(Clone, Debug, PartialEq, Eq)]
pub struct Invocation {
    pub method: MethodRef,
    pub scope: Option<ScopeRef>,
    pub receiver: Option<ObjectRef>,
    pub arguments: Vec<Value>,
    pub subclass: Option<ClassRef>,
    pub callee: ObjectRef,
}

/// A construction in progress: the new instance, and the constructor body to
/// run against it.
#[derive(Clone, Debug, PartialEq, Eq)]
pub struct Construction {
    pub instance: ObjectRef,
    pub invocation: Invocation,
}

/// A handle to a function object in a [`Heap`].
#[derive(Clone, Copy, Debug, PartialEq, Eq, Structural)]
pub struct FunctionObject(pub ObjectRef);

/// The text every function object converts to.
pub open spec fn function_text() -> Seq<char> {
    "function Function() {}"@
}

impl Executable {
    /// Pairs a method with its closure scope and an optional forced receiver.
    pub fn from_method(method: MethodRef, scope: Option<ScopeRef>, receiver: Option<ObjectRef>) -> (r: Executable)
        ensures
            r == (Executable { method, scope, receiver }),
    {
        Executable { method, scope, receiver }
    }

    /// The receiver a call runs with: the forced one if there is one, else
    /// the one supplied at the call site.
    pub open spec fn receiver_for(self, supplied: Option<ObjectRef>) -> Option<ObjectRef> {
        match self.receiver {
            Some(forced) => Some(forced),
            None => supplied,
        }
    }

    /// The invocation of this code with the given call-site values.
    pub open spec fn invocation_spec(
        self,
        receiver: Option<ObjectRef>,
        arguments: Vec<Value>,
        subclass: Option<ClassRef>,
        callee: ObjectRef,
    ) -> Invocation {
        Invocation {
            method: self.method,
            scope: self.scope,
            receiver: self.receiver_for(receiver),
            arguments,
            subclass,
            callee,
        }
    }

    /// Prepares a run of this code for the interpreter.
    pub fn exec(
        &self,
        receiver: Option<ObjectRef>,
        arguments: Vec<Value>,
        subclass: Option<ClassRef>,
        callee: ObjectRef,
    ) -> (r: Invocation)
        ensures
            r == self.invocation_spec(receiver, arguments, subclass, callee),
    {
        let receiver = match self.receiver {
            Some(forced) => Some(forced),
            None => receiver,
        };
        Invocation { method: self.method, scope: self.scope, receiver, arguments, subclass, callee }
    }
}

impl Construction {
    /// What a construction yields once its constructor body ran with `outcome`.
    pub open spec fn complete_spec(self, outcome: Result<Value, Error>) -> Result<ObjectRef, Error> {
        match outcome {
            Ok(_) => Ok(self.instance),
            Err(e) => Err(e),
        }
    }

    /// Finishes a construction: the instance, whatever the body returned, or
    /// the body's error unchanged.
    pub fn complete(self, outcome: Result<Value, Error>) -> (r: Result<ObjectRef, Error>)
        ensures
            r == self.complete_spec(outcome),
    {
        match outcome {
            Ok(_) => Ok(self.instance),
            Err(e) => Err(e),
        }
    }
}

/// The result of calling the object `f` of `heap`.
pub open spec fn call_spec(
    heap: Heap,
    f: ObjectRef,
    receiver: Option<ObjectRef>,
    arguments: Vec<Value>,
    subclass: Option<ClassRef>,
) -> Result<Invocation, Error> {
    match heap@[f.index as int].code {
        Some(e) => Ok(e.invocation_spec(receiver, arguments, subclass, f)),
        None => Err(Error::NotCallable),
    }
}

/// `new` is `old` with one more object at the end: a blank, uncallable
/// instance of the existing object `proto`.
pub open spec fn derived(old: Heap, new: Heap, proto: ObjectRef, r: ObjectRef) -> bool {
    &&& new.wf()
    &&& proto.index < old@.len()
    &&& r.index == old@.len()
    &&& new@.len() == old@.len() + 1
    &&& forall|j: int| 0 <= j < old@.len() ==> new@[j] == old@[j]
    &&& new.proto_of(r) == Some(proto)
    &&& new@[r.index as int].code.is_none()
    &&& new@[r.index as int].base.slot_count() == 0
    &&& forall|k| !(#[trigger] new@[r.index as int].base.has_own_spec(k))
    &&& forall|k| #[trigger] new.own_of(r, k) == None::<Value>
    &&& forall|k| !(#[trigger] new@[r.index as int].base.is_final_spec(k))
}

/// The outcome of constructing `f` of `old` with `arguments`, leaving `new`:
/// the `prototype` property read on `f` must be an object `p`; then a plain
/// instance of `p` is derived and the constructor body is called on it.
pub open spec fn constructed(
    old: Heap,
    new: Heap,
    f: ObjectRef,
    arguments: Vec<Value>,
    r: Result<Construction, Error>,
) -> bool {
    match old.property(f, prototype_key()).object_spec() {
        None => r == Err::<Construction, Error>(Error::PropertyCoercionFailure) && new@ == old@,
        Some(p) => {
            let instance = ObjectRef { index: old@.len() as usize };
            &&& derived(old, new, p, instance)
            &&& r == match call_spec(old, f, Some(instance), arguments, None) {
                Ok(inv) => Ok::<Construction, Error>(Construction { instance, invocation: inv }),
                Err(e) => Err(e),
            }
        },
    }
}

impl FunctionObject {
    /// Creates a function object for `method` closing over `scope`, with a
    /// fresh `prototype` property: a plain object whose prototype is the root
    /// object prototype.
    pub fn from_function(heap: &mut Heap, prototypes: Prototypes, method: MethodRef, scope: Option<ScopeRef>) -> (r: Result<ObjectRef, Error>)
        requires
            old(heap).wf(),
            old(heap).contains(prototypes.object),
            old(heap).contains(prototypes.function),
        ensures
            final(heap).wf(),
            r is Ok,
            r matches Ok(f) ==> {
                &&& f.index == old(heap)@.len()
                &&& final(heap)@.len() == old(heap)@.len() + 2
                &&& forall|j: int| 0 <= j < old(heap)@.len() ==> final(heap)@[j] == old(heap)@[j]
                &&& final(heap).proto_of(f) == Some(prototypes.function)
                &&& final(heap)@[f.index as int].code == Some(Executable { method, scope, receiver: None })
                &&& final(heap)@[f.index as int].base.has_own_spec(prototype_key())
                &&& !final(heap)@[f.index as int].base.is_final_spec(prototype_key())
                &&& final(heap).own_of(f, prototype_key()) == Some(Value::Object(ObjectRef { index: (f.index + 1) as usize }))
                &&& final(heap).proto_of(ObjectRef { index: (f.index + 1) as usize }) == Some(prototypes.object)
                &&& final(heap)@[f.index + 1].code.is_none()
                &&& final(heap)@[f.index + 1].base.slot_count() == 0
                &&& forall|k| !(#[trigger] final(heap)@[f.index + 1].base.has_own_spec(k))
                &&& forall|k| #[trigger] final(heap)@[f.index + 1].base.own(k) == None::<Value>
                &&& forall|k| k != prototype_key() ==> !(#[trigger] final(heap)@[f.index as int].base.has_own_spec(k))
            },
    {
        let f = FunctionObject::from_method(heap, prototypes, method, scope, None);
        let instance_proto = heap.allocate(
            FunctionObjectData { base: ScriptObjectData::base_new(Some(prototypes.object), None), code: None },
        );
        let ghost mid = *heap;
        let name = prototype_name();
        proof {
            heap@[f.index as int].base.lemma_blank_slots_free(0, name.key());
        }
        heap.install_slot(f, name, 0, Value::Object(instance_proto), false);
        proof {
            assert(heap@[instance_proto.index as int] == mid@[instance_proto.index as int]);
            assert forall|k| k != prototype_key() implies !(#[trigger] heap@[f.index as int].base.has_own_spec(k)) by {
                assert(heap@[f.index as int].base.own(k) == mid@[f.index as int].base.own(k));
            }
        }
        Ok(f)
    }

    /// Creates a function object for `method` closing over `scope`; a given
    /// `receiver` overrides the one supplied at each call.
    pub fn from_method(
        heap: &mut Heap,
        prototypes: Prototypes,
        method: MethodRef,
        scope: Option<ScopeRef>,
        receiver: Option<ObjectRef>,
    ) -> (r: ObjectRef)
        requires
            old(heap).wf(),
            old(heap).contains(prototypes.function),
            receiver matches Some(o) ==> old(heap).contains(o),
        ensures
            final(heap).wf(),
            r.index == old(heap)@.len(),
            final(heap)@.len() == old(heap)@.len() + 1,
            forall|j: int| 0 <= j < old(heap)@.len() ==> final(heap)@[j] == old(heap)@[j],
            final(heap).proto_of(r) == Some(prototypes.function),
            final(heap)@[r.index as int].code == Some(Executable { method, scope, receiver }),
            final(heap)@[r.index as int].base.slot_count() == 0,
            forall|k| !(#[trigger] final(heap)@[r.index as int].base.has_own_spec(k)),
    {
        let code = Some(Executable::from_method(method, scope, receiver));
        heap.allocate(FunctionObjectData { base: ScriptObjectData::base_new(Some(prototypes.function), None), code })
    }

    /// The base object state of this object.
    pub fn base<'a>(&self, heap: &'a Heap) -> (r: &'a ScriptObjectData)
        requires
            heap.contains(self.0),
        ensures
            *r == heap@[self.0.index as int].base,
    {
        &heap.get(self.0).base
    }

    /// A number identifying this object: equal for the same object only.
    pub fn as_ptr(&self) -> (r: usize)
        ensures
            r == self.0.index,
    {
        self.0.index
    }

    pub fn to_string(&self) -> (r: Result<Value, Error>)
        ensures
            r matches Ok(Value::Str(s)) && s@ == function_text(),
    {
        proof {
            reveal_strlit("function Function() {}");
        }
        Ok(Value::Str(String::from_str("function Function() {}")))
    }

    pub fn to_locale_string(&self) -> (r: Result<Value, Error>)
        ensures
            r matches Ok(Value::Str(s)) && s@ == function_text(),
    {
        self.to_string()
    }

    /// The object itself, as a value: functions have no primitive value.
    pub fn value_of(&self) -> (r: Result<Value, Error>)
        ensures
            r == Ok::<Value, Error>(Value::Object(self.0)),
    {
        Ok(Value::Object(self.0))
    }

    /// The code of this object, if it is callable.
    pub fn as_executable(&self, heap: &Heap) -> (r: Option<Executable>)
        requires
            heap.contains(self.0),
        ensures
            r == heap@[self.0.index as int].code,
    {
        heap.get(self.0).code
    }

    /// Calls this object: prepares its code to run with the forced receiver, or
    /// else `receiver`; an object without code is not callable. The heap is
    /// only read.
    pub fn call(
        self,
        heap: &Heap,
        receiver: Option<ObjectRef>,
        arguments: Vec<Value>,
        subclass: Option<ClassRef>,
    ) -> (r: Result<Invocation, Error>)
        requires
            heap.contains(self.0),
        ensures
            r == call_spec(*heap, self.0, receiver, arguments, subclass),
    {
        match &heap.get(self.0).code {
            Some(code) => Ok(code.exec(receiver, arguments, subclass, self.0)),
            None => Err(Error::NotCallable),
        }
    }

    /// Creates a plain instance whose prototype is this object and which has
    /// no code.
    pub fn derive(&self, heap: &mut Heap) -> (r: Result<ObjectRef, Error>)
        requires
            old(heap).wf(),
            old(heap).contains(self.0),
        ensures
            r matches Ok(o) && derived(*old(heap), *final(heap), self.0, o),
    {
        let base = ScriptObjectData::base_new(Some(self.0), None);
        Ok(heap.allocate(FunctionObjectData { base, code: None }))
    }

    /// Starts constructing with this object: reads its `prototype` property,
    /// derives an instance from it, and prepares the constructor body to run
    /// against that instance with `arguments` and no subclass marker. The
    /// interpreter runs the body and finishes with [`Construction::complete`].
    pub fn construct(self, heap: &mut Heap, arguments: Vec<Value>) -> (r: Result<Construction, Error>)
        requires
            old(heap).wf(),
            old(heap).contains(self.0),
        ensures
            constructed(*old(heap), *final(heap), self.0, arguments, r),
    {
        let ghost pre = *heap;
        proof {
            lemma_property_within(pre, self.0, prototype_key());
        }
        let prototype = heap.get_property(self.0, &prototype_name()).coerce_to_object()?;
        let instance = FunctionObject(prototype).derive(heap)?;
        let invocation = self.call(heap, Some(instance), arguments, None);
        proof {
            assert(heap@[self.0.index as int] == pre@[self.0.index as int]);
        }
        let invocation = invocation?;
        Ok(Construction { instance, invocation })
    }
}

/// A derived instance is not callable: calling it fails with `NotCallable`,
/// whatever the receiver, arguments and subclass marker.
pub proof fn lemma_derived_not_callable(
    old: Heap,
    new: Heap,
    proto: ObjectRef,
    d: ObjectRef,
    receiver: Option<ObjectRef>,
    arguments: Vec<Value>,
    subclass: Option<ClassRef>,
)
    requires
        derived(old, new, proto, d),
    ensures
        new.proto_of(d) == Some(proto),
        call_spec(new, d, receiver, arguments, subclass) == Err::<Invocation, Error>(Error::NotCallable),
{
}

/// Reading any name on a derived instance gives what reading it on the
/// object it was derived from gives.
pub proof fn lemma_derived_reads_through(old: Heap, new: Heap, proto: ObjectRef, d: ObjectRef, k: (Seq<char>, Seq<char>))
    requires
        derived(old, new, proto, d),
    ensures
        new.property(d, k) == new.property(proto, k),
{
    lemma_lookup_step(new, d, proto, k);
}

/// Construction yields the derived instance, linked to the object that the
/// function's `prototype` property held, whatever value the constructor body
/// returned.
pub proof fn lemma_construct_yields_instance(
    old: Heap,
    new: Heap,
    f: ObjectRef,
    arguments: Vec<Value>,
    c: Construction,
    returned: Value,
)
    requires
        constructed(old, new, f, arguments, Ok(c)),
    ensures
        c.complete_spec(Ok(returned)) == Ok::<ObjectRef, Error>(c.instance),
        old.property(f, prototype_key()).object_spec() matches Some(p) && new.proto_of(c.instance) == Some(p),
        new@[c.instance.index as int].code.is_none(),
        c.invocation.receiver == old@[f.index as int].code.unwrap().receiver_for(Some(c.instance)),
{
}

/// A forced receiver wins over any receiver supplied at the call site; without
/// one, the call runs with exactly the supplied receiver.
pub proof fn lemma_call_receiver(
    heap: Heap,
    f: ObjectRef,
    code: Executable,
    receiver: Option<ObjectRef>,
    arguments: Vec<Value>,
    subclass: Option<ClassRef>,
)
    requires
        heap@[f.index as int].code == Some(code),
    ensures
        call_spec(heap, f, receiver, arguments, subclass) matches Ok(inv) && inv.receiver == match code.receiver {
            Some(forced) => Some(forced),
            None => receiver,
        },
{
}

} // verus!
