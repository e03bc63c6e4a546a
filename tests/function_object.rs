use avm2_function::{
    ClassRef, Error, FunctionObject, Heap, MethodRef, Namespace, ObjectRef, Prototypes, QName,
    ScopeRef, Value,
};

fn name(local: &str) -> QName {
    QName::new(Namespace::public(), local)
}

fn setup() -> (Heap, Prototypes) {
    let mut heap = Heap::new();
    let protos = Prototypes::new(&mut heap);
    (heap, protos)
}

fn plain_object(heap: &mut Heap, protos: Prototypes) -> ObjectRef {
    FunctionObject(protos.object).derive(heap).unwrap()
}

#[test]
fn from_function_installs_prototype_property() {
    let (mut heap, protos) = setup();
    let f = FunctionObject::from_function(&mut heap, protos, MethodRef { id: 7 }, Some(ScopeRef { id: 3 }))
        .unwrap();
    assert!(heap.has_own_property(f, &name("prototype")));
    let p = match heap.get_property(f, &name("prototype")) {
        Value::Object(p) => p,
        other => panic!("prototype is not an object: {:?}", other),
    };
    assert_eq!(heap.get(p).base.prototype(), Some(protos.object));
    assert_eq!(heap.get(p).code, None);
    assert_eq!(heap.get(f).base.prototype(), Some(protos.function));
    let code = FunctionObject(f).as_executable(&heap).unwrap();
    assert_eq!(code.method, MethodRef { id: 7 });
    assert_eq!(code.scope, Some(ScopeRef { id: 3 }));
    assert_eq!(code.receiver, None);
}

#[test]
fn from_method_has_no_prototype_property() {
    let (mut heap, protos) = setup();
    let f = FunctionObject::from_method(&mut heap, protos, MethodRef { id: 1 }, None, None);
    assert!(!heap.has_own_property(f, &name("prototype")));
    assert_eq!(heap.get(f).base.prototype(), Some(protos.function));
    assert_eq!(heap.len(), 3);
}

#[test]
fn derived_object_links_to_its_origin_and_is_not_callable() {
    let (mut heap, protos) = setup();
    let o = plain_object(&mut heap, protos);
    let d = FunctionObject(o).derive(&mut heap).unwrap();
    assert_eq!(heap.get(d).base.prototype(), Some(o));
    assert_eq!(FunctionObject(d).as_executable(&heap), None);
    let r = FunctionObject(d).call(&heap, Some(o), vec![Value::Integer(1)], None);
    assert_eq!(r, Err(Error::NotCallable));
}

#[test]
fn construct_returns_derived_instance_not_body_result() {
    let (mut heap, protos) = setup();
    let f = FunctionObject::from_function(&mut heap, protos, MethodRef { id: 2 }, None).unwrap();
    let p = match heap.get_property(f, &name("prototype")) {
        Value::Object(p) => p,
        other => panic!("prototype is not an object: {:?}", other),
    };
    let c = FunctionObject(f).construct(&mut heap, vec![Value::Integer(5)]).unwrap();
    assert_eq!(heap.get(c.instance).base.prototype(), Some(p));
    assert_eq!(heap.get(c.instance).code, None);
    assert_eq!(c.invocation.receiver, Some(c.instance));
    assert_eq!(c.invocation.arguments, vec![Value::Integer(5)]);
    assert_eq!(c.invocation.subclass, None);
    assert_eq!(c.invocation.callee, f);
    assert_eq!(c.invocation.method, MethodRef { id: 2 });
    let instance = c.instance;
    // the body returned a number; the instance is still what construction yields
    assert_eq!(c.complete(Ok(Value::Integer(42))), Ok(instance));
}

#[test]
fn construct_passes_body_error_through() {
    let (mut heap, protos) = setup();
    let f = FunctionObject::from_function(&mut heap, protos, MethodRef { id: 2 }, None).unwrap();
    let c = FunctionObject(f).construct(&mut heap, vec![]).unwrap();
    let thrown = Value::Str("boom".to_string());
    assert_eq!(c.complete(Err(Error::Thrown(thrown.clone()))), Err(Error::Thrown(thrown)));
}

#[test]
fn construct_with_non_object_prototype_fails() {
    let (mut heap, protos) = setup();
    let f = FunctionObject::from_function(&mut heap, protos, MethodRef { id: 2 }, None).unwrap();
    heap.set_property(f, name("prototype"), Value::Integer(3)).unwrap();
    let before = heap.len();
    let r = FunctionObject(f).construct(&mut heap, vec![]);
    assert_eq!(r, Err(Error::PropertyCoercionFailure));
    assert_eq!(heap.len(), before);
}

#[test]
fn construct_without_prototype_property_fails() {
    let (mut heap, protos) = setup();
    let f = FunctionObject::from_method(&mut heap, protos, MethodRef { id: 2 }, None, None);
    let r = FunctionObject(f).construct(&mut heap, vec![]);
    assert_eq!(r, Err(Error::PropertyCoercionFailure));
}

#[test]
fn construct_non_callable_fails() {
    let (mut heap, protos) = setup();
    let p = plain_object(&mut heap, protos);
    let d = FunctionObject(p).derive(&mut heap).unwrap();
    heap.set_property(d, name("prototype"), Value::Object(p)).unwrap();
    let r = FunctionObject(d).construct(&mut heap, vec![]);
    assert_eq!(r, Err(Error::NotCallable));
}

#[test]
fn forced_receiver_overrides_call_site() {
    let (mut heap, protos) = setup();
    let bound = plain_object(&mut heap, protos);
    let other = plain_object(&mut heap, protos);
    let f = FunctionObject::from_method(&mut heap, protos, MethodRef { id: 9 }, None, Some(bound));
    let inv = FunctionObject(f)
        .call(&heap, Some(other), vec![Value::Bool(true)], Some(ClassRef { id: 4 }))
        .unwrap();
    assert_eq!(inv.receiver, Some(bound));
    assert_eq!(inv.subclass, Some(ClassRef { id: 4 }));
    assert_eq!(inv.arguments, vec![Value::Bool(true)]);
    assert_eq!(inv.callee, f);
    let inv = FunctionObject(f).call(&heap, None, vec![], None).unwrap();
    assert_eq!(inv.receiver, Some(bound));
}

#[test]
fn unforced_receiver_is_call_site_receiver() {
    let (mut heap, protos) = setup();
    let other = plain_object(&mut heap, protos);
    let f = FunctionObject::from_method(&mut heap, protos, MethodRef { id: 9 }, Some(ScopeRef { id: 2 }), None);
    let inv = FunctionObject(f).call(&heap, Some(other), vec![], None).unwrap();
    assert_eq!(inv.receiver, Some(other));
    assert_eq!(inv.scope, Some(ScopeRef { id: 2 }));
    let inv = FunctionObject(f).call(&heap, None, vec![], None).unwrap();
    assert_eq!(inv.receiver, None);
}

#[test]
fn call_without_code_changes_nothing() {
    let (mut heap, protos) = setup();
    let o = plain_object(&mut heap, protos);
    heap.set_property(o, name("x"), Value::Integer(1)).unwrap();
    let before = heap.len();
    let r = FunctionObject(o).call(&heap, None, vec![], None);
    assert_eq!(r, Err(Error::NotCallable));
    assert_eq!(heap.len(), before);
    assert_eq!(heap.get_property(o, &name("x")), Value::Integer(1));
}

#[test]
fn chain_lookup_and_own_write() {
    let (mut heap, protos) = setup();
    let c = plain_object(&mut heap, protos);
    let b = FunctionObject(c).derive(&mut heap).unwrap();
    let a = FunctionObject(b).derive(&mut heap).unwrap();
    heap.set_property(c, name("x"), Value::Integer(10)).unwrap();
    assert_eq!(heap.get_property(a, &name("x")), Value::Integer(10));
    assert!(!heap.has_own_property(a, &name("x")));
    heap.set_property(a, name("x"), Value::Integer(20)).unwrap();
    assert!(heap.has_own_property(a, &name("x")));
    assert_eq!(heap.get_property(a, &name("x")), Value::Integer(20));
    assert_eq!(heap.get_property(b, &name("x")), Value::Integer(10));
    assert!(!heap.has_own_property(b, &name("x")));
    assert_eq!(heap.get_property(c, &name("x")), Value::Integer(10));
}

#[test]
fn missing_property_reads_undefined() {
    let (mut heap, protos) = setup();
    let o = plain_object(&mut heap, protos);
    assert_eq!(heap.get_property(o, &name("nothing")), Value::Undefined);
}

#[test]
fn names_differ_by_namespace() {
    let (mut heap, protos) = setup();
    let o = plain_object(&mut heap, protos);
    let private = QName::new(Namespace { uri: "private".to_string() }, "x");
    heap.set_property(o, private.clone(), Value::Integer(1)).unwrap();
    assert_eq!(heap.get_property(o, &name("x")), Value::Undefined);
    assert_eq!(heap.get_property(o, &private), Value::Integer(1));
    assert!(private.same_as(&QName::new(Namespace { uri: "private".to_string() }, "x")));
    assert!(!private.same_as(&name("x")));
}

#[test]
fn final_slot_refuses_write() {
    let (mut heap, protos) = setup();
    let o = plain_object(&mut heap, protos);
    heap.install_slot(o, name("k"), 0, Value::Integer(1), true);
    assert_eq!(heap.set_property(o, name("k"), Value::Integer(2)), Err(Error::ReadOnlyProperty));
    assert_eq!(heap.get_property(o, &name("k")), Value::Integer(1));
    heap.install_slot(o, name("m"), 1, Value::Null, false);
    assert_eq!(heap.set_property(o, name("m"), Value::Integer(2)), Ok(()));
    assert_eq!(heap.get_property(o, &name("m")), Value::Integer(2));
}

#[test]
fn function_converts_to_fixed_text() {
    let (mut heap, protos) = setup();
    let f = FunctionObject::from_function(&mut heap, protos, MethodRef { id: 11 }, None).unwrap();
    let g = FunctionObject::from_method(&mut heap, protos, MethodRef { id: 12 }, None, None);
    let text = Value::Str("function Function() {}".to_string());
    assert_eq!(FunctionObject(f).to_string(), Ok(text.clone()));
    assert_eq!(FunctionObject(g).to_string(), Ok(text.clone()));
    assert_eq!(FunctionObject(g).to_locale_string(), Ok(text));
}

#[test]
fn value_of_is_the_object_itself() {
    let (mut heap, protos) = setup();
    let f = FunctionObject::from_method(&mut heap, protos, MethodRef { id: 1 }, None, None);
    assert_eq!(FunctionObject(f).value_of(), Ok(Value::Object(f)));
    assert_eq!(FunctionObject(f).as_ptr(), f.index);
    assert_eq!(FunctionObject(f).base(&heap).prototype(), Some(protos.function));
}

#[test]
fn slot_installed_at_given_index() {
    let (mut heap, protos) = setup();
    let o = plain_object(&mut heap, protos);
    let mut state = heap.get(o).base.clone();
    state.install_slot(name("a"), 3, Value::Integer(1), false);
    assert_eq!(state.get_own(&name("a")), Some(Value::Integer(1)));
    state.install_slot(name("a"), 1, Value::Integer(2), true);
    assert_eq!(state.get_own(&name("a")), Some(Value::Integer(2)));
    assert_eq!(state.set_own(name("a"), Value::Integer(5)), Err(Error::ReadOnlyProperty));
    state.install_slot(name("b"), 3, Value::Bool(true), false);
    assert_eq!(state.get_own(&name("b")), Some(Value::Bool(true)));
    assert_eq!(state.get_own(&name("a")), Some(Value::Integer(2)));
}

#[test]
fn derived_object_reads_through_origin() {
    let (mut heap, protos) = setup();
    let c = plain_object(&mut heap, protos);
    heap.set_property(c, name("x"), Value::Integer(1)).unwrap();
    let b = FunctionObject(c).derive(&mut heap).unwrap();
    heap.set_property(b, name("x"), Value::Integer(2)).unwrap();
    let a = FunctionObject(b).derive(&mut heap).unwrap();
    assert_ne!(a, b);
    assert_eq!(heap.get_property(a, &name("x")), Value::Integer(2));
    assert_eq!(heap.get_property(a, &name("y")), Value::Undefined);
}

#[test]
fn prototype_property_of_declared_function_is_blank_and_writable() {
    let (mut heap, protos) = setup();
    let f = FunctionObject::from_function(&mut heap, protos, MethodRef { id: 2 }, None).unwrap();
    let g = FunctionObject::from_function(&mut heap, protos, MethodRef { id: 2 }, None).unwrap();
    let p = match heap.get_property(f, &name("prototype")) {
        Value::Object(p) => p,
        other => panic!("prototype is not an object: {:?}", other),
    };
    assert_ne!(heap.get_property(g, &name("prototype")), Value::Object(p));
    assert!(!heap.has_own_property(p, &name("constructor")));
    let c = FunctionObject(f).construct(&mut heap, vec![]).unwrap();
    assert_ne!(c.instance, p);
    assert_eq!(heap.set_property(f, name("prototype"), Value::Null), Ok(()));
}
