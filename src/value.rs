use vstd::prelude::*;

verus! {

/// A handle naming one object of a [`crate::Heap`]; equal handles name the same object.
#[derive(Clone, Copy, Debug, PartialEq, Eq, Hash, Structural)]
pub struct ObjectRef {
    pub index: usize,
}

/// Opaque handle to a method or code descriptor, interpreted by the code layer.
#[derive(Clone, Copy, Debug, PartialEq, Eq, Hash, Structural)]
pub struct MethodRef {
    pub id: u64,
}

/// Opaque handle to a captured closure scope chain.
#[derive(Clone, Copy, Debug, PartialEq, Eq, Hash, Structural)]
pub struct ScopeRef {
    pub id: u64,
}

/// Opaque handle to a class object, passed through to resolve `super` calls.
#[derive(Clone, Copy, Debug, PartialEq, Eq, Hash, Structural)]
pub struct ClassRef {
    pub id: u64,
}

/// A namespace, identified by its URI; the public namespace has the empty URI.
#[derive(Clone, Debug, PartialEq, Eq, Hash)]
pub struct Namespace {
    pub uri: String,
}

impl Namespace {
    pub fn public() -> (r: Namespace)
        ensures
            r.uri@ == Seq::<char>::empty(),
    {
        Namespace { uri: String::new() }
    }
}

/// A qualified name: a namespace and a local name.
#[derive(Clone, Debug, PartialEq, Eq, Hash)]
pub struct QName {
    pub ns: Namespace,
    pub local: String,
}

impl QName {
    /// The pair of character sequences that identifies this name.
    pub open spec fn key(&self) -> (Seq<char>, Seq<char>) {
        (self.ns.uri@, self.local@)
    }

    pub fn new(ns: Namespace, local: &str) -> (r: QName)
        ensures
            r.ns == ns,
            r.local@ == local@,
    {
        QName { ns, local: String::from_str(local) }
    }

    /// Whether two names are the same qualified name.
    pub fn same_as(&self, other: &QName) -> (r: bool)
        ensures
            r == (self.key() == other.key()),
    {
        let a = self.ns.uri == other.ns.uri;
        let b = self.local == other.local;
        a && b
    }
}

/// The name under which a function keeps the prototype of its instances.
pub open spec fn prototype_key() -> (Seq<char>, Seq<char>) {
    (Seq::<char>::empty(), "prototype"@)
}

pub fn prototype_name() -> (r: QName)
    ensures
        r.key() == prototype_key(),
{
    proof {
        reveal_strlit("prototype");
    }
    QName::new(Namespace::public(), "prototype")
}

/// A value of the scripting language.
#[derive(Clone, Debug, PartialEq, Eq)]
pub enum Value {
    Undefined,
    Null,
    Bool(bool),
    Integer(i64),
    Str(String),
    Object(ObjectRef),
}

impl Value {
    /// A copy of this value.
    pub fn copy(&self) -> (r: Value)
        ensures
            r == *self,
    {
        match self {
            Value::Undefined => Value::Undefined,
            Value::Null => Value::Null,
            Value::Bool(b) => Value::Bool(*b),
            Value::Integer(n) => Value::Integer(*n),
            Value::Str(s) => Value::Str(s.clone()),
            Value::Object(o) => Value::Object(*o),
        }
    }

    /// Whether a handle this value holds names one of the first `n` objects.
    pub open spec fn within(&self, n: nat) -> bool {
        match self {
            Value::Object(o) => o.index < n,
            _ => true,
        }
    }

    /// The object this value coerces to, if any: only object values do.
    pub open spec fn object_spec(&self) -> Option<ObjectRef> {
        match self {
            Value::Object(o) => Some(*o),
            _ => None,
        }
    }

    /// Coerces this value to an object; anything but an object value fails.
    pub fn coerce_to_object(&self) -> (r: Result<ObjectRef, Error>)
        ensures
            r == (match self.object_spec() {
                Some(o) => Ok::<ObjectRef, Error>(o),
                None => Err(Error::PropertyCoercionFailure),
            }),
    {
        match self {
            Value::Object(o) => Ok(*o),
            _ => Err(Error::PropertyCoercionFailure),
        }
    }
}

/// The failures raised by this layer, and those of executed code passed through.
#[derive(Clone, Debug, PartialEq, Eq)]
pub enum Error {
    /// The target of a call has no executable code.
    NotCallable,
    /// A `prototype` property did not hold an object.
    PropertyCoercionFailure,
    /// A write to a property installed as final.
    ReadOnlyProperty,
    /// A value thrown by executed code.
    Thrown(Value),
}

} // verus!
