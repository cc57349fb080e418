use wrpc_dynamic::paths::subchannel_paths;
use wrpc_dynamic::resolve::{DynamicFunction, FunctionDecl, FunctionKind, ResolutionError, Schema};
use wrpc_dynamic::value::{Type, Value};

fn schema() -> Schema {
    Schema {
        types: vec![
            Some(Type::Borrow),
            Some(Type::U32),
            None,
            Some(Type::Own),
        ],
    }
}

#[test]
fn resolves_method_with_receiver() {
    let decl = FunctionDecl { kind: FunctionKind::Method, params: vec![0, 1], results: vec![] };
    assert_eq!(
        DynamicFunction::resolve(&schema(), &decl),
        Ok(DynamicFunction::Method { self_param: 0, params: vec![1], results: vec![] })
    );
    let getter = FunctionDecl { kind: FunctionKind::Method, params: vec![0], results: vec![1] };
    let f = DynamicFunction::resolve(&schema(), &getter).unwrap();
    assert_eq!(f.results(), &vec![1]);
}

#[test]
fn resolves_static_and_constructor() {
    let ctor = FunctionDecl { kind: FunctionKind::Constructor, params: vec![1], results: vec![3] };
    assert_eq!(
        DynamicFunction::resolve(&schema(), &ctor),
        Ok(DynamicFunction::Static { params: vec![1], results: vec![3] })
    );
    let free = FunctionDecl { kind: FunctionKind::Freestanding, params: vec![], results: vec![] };
    assert_eq!(
        DynamicFunction::resolve(&schema(), &free),
        Ok(DynamicFunction::Static { params: vec![], results: vec![] })
    );
}

#[test]
fn resolution_errors() {
    let unknown = FunctionDecl { kind: FunctionKind::Static, params: vec![1, 9], results: vec![2] };
    assert_eq!(DynamicFunction::resolve(&schema(), &unknown), Err(ResolutionError::UnknownType));
    let generic = FunctionDecl { kind: FunctionKind::Static, params: vec![2], results: vec![9] };
    assert_eq!(
        DynamicFunction::resolve(&schema(), &generic),
        Err(ResolutionError::UnsupportedShape)
    );
    let no_receiver = FunctionDecl { kind: FunctionKind::Method, params: vec![1], results: vec![] };
    assert_eq!(
        DynamicFunction::resolve(&schema(), &no_receiver),
        Err(ResolutionError::UnsupportedShape)
    );
    let empty = FunctionDecl { kind: FunctionKind::Method, params: vec![], results: vec![] };
    assert_eq!(DynamicFunction::resolve(&schema(), &empty), Err(ResolutionError::UnsupportedShape));
}

#[test]
fn subchannel_paths_follow_structure() {
    let v = Value::Record(vec![
        Value::U8(1),
        Value::Stream,
        Value::List(vec![Value::Future, Value::U8(0), Value::Stream]),
        Value::Variant(3, Some(Box::new(Value::Future))),
    ]);
    assert_eq!(
        subchannel_paths(&v),
        vec![vec![1], vec![2, 0], vec![2, 2], vec![3, 3]]
    );
    assert_eq!(subchannel_paths(&Value::Stream), vec![Vec::<u64>::new()]);
    assert!(subchannel_paths(&Value::U32(5)).is_empty());
}
