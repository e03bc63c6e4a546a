//! Callable objects and instantiation for a prototype-based object heap.
//!
//! Heap values live in a [`object::Heap`] and are named by [`value::ObjectRef`]
//! handles. Function objects pair base object state with an optional
//! [`function_object::Executable`]; calling one yields an [`function_object::Invocation`]
//! that the interpreter runs, and constructing one derives a fresh instance from
//! the function's `prototype` property.
pub mod value;
pub mod object;
pub mod function_object;

pub use value::{ObjectRef, Namespace, QName, Value, Error, MethodRef, ScopeRef, ClassRef};
pub use object::{Property, Slot, ScriptObjectData, FunctionObjectData, Heap, Prototypes};
pub use function_object::{Executable, Invocation, Construction, FunctionObject};
