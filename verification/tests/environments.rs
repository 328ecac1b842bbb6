use vector::state::{
    Details, ExternalEnv, FieldPath, Ident, LocalEnv, PathRoot, Runtime, TypeDef, TypeFlags, Value,
};
use vector::vrl::VrlRuntime;

fn bytes_only() -> TypeDef {
    TypeDef {
        fallible: false,
        kind: TypeFlags { bytes: true, integer: false, boolean: false, null: false },
    }
}

fn integer_only() -> TypeDef {
    TypeDef {
        fallible: true,
        kind: TypeFlags { bytes: false, integer: true, boolean: false, null: false },
    }
}

#[test]
fn local_env_insert_lookup_remove() {
    let mut env = LocalEnv::new();
    let x = Ident::from("x");
    env.insert_variable(x.clone(), Details { type_def: bytes_only(), value: None });
    assert!(env.variable(&x).is_some());
    assert_eq!(env.variable_idents(), vec![x.clone()]);
    let removed = env.remove_variable(&x).unwrap();
    assert_eq!(removed.type_def, bytes_only());
    assert!(env.variable(&x).is_none());
}

#[test]
fn local_env_merge_takes_the_union() {
    let mut a = LocalEnv::new();
    let x = Ident::from("x");
    a.insert_variable(x.clone(), Details { type_def: bytes_only(), value: None });
    let mut b = LocalEnv::new();
    b.insert_variable(x.clone(), Details { type_def: integer_only(), value: None });
    let merged = a.merge(b);
    let d = merged.variable(&x).unwrap();
    assert!(d.type_def.fallible);
    assert!(d.type_def.kind.bytes && d.type_def.kind.integer);
    assert!(!d.type_def.kind.boolean);
}

#[test]
fn local_env_child_scope_updates_parent_bindings_only() {
    let mut parent = LocalEnv::new();
    let x = Ident::from("x");
    parent.insert_variable(x.clone(), Details { type_def: bytes_only(), value: None });
    let mut child = LocalEnv::new();
    child.insert_variable(x.clone(), Details { type_def: integer_only(), value: None });
    child.insert_variable(Ident::from("y"), Details { type_def: bytes_only(), value: None });
    let applied = parent.apply_child_scope(child);
    assert_eq!(applied.variable(&x).unwrap().type_def, integer_only());
    assert!(applied.variable(&Ident::from("y")).is_none());
}

#[test]
fn runtime_variables_round_trip() {
    let mut rt = Runtime::new();
    assert!(rt.is_empty());
    let x = Ident::from("x");
    rt.insert_variable(x.clone(), Value::Integer(7));
    assert!(!rt.is_empty());
    assert_eq!(rt.variable(&x), Some(&Value::Integer(7)));
    let old = rt.swap_variable(x.clone(), Value::Boolean(true));
    assert_eq!(old, Some(Value::Integer(7)));
    assert_eq!(rt.variable(&x), Some(&Value::Boolean(true)));
    if let Some(slot) = rt.variable_mut(&x) {
        *slot = Value::Null;
    }
    assert_eq!(rt.variable(&x), Some(&Value::Null));
    rt.remove_variable(&x);
    rt.clear();
    assert!(rt.is_empty());
}

#[test]
fn read_only_paths_cover_children_parents_and_exact_matches() {
    let mut env = ExternalEnv::new_with_kind(bytes_only());
    let secret = FieldPath { segments: vec!["secret".to_owned()] };
    env.add_read_only_event_path(secret.clone(), true);

    let nested = FieldPath { segments: vec!["secret".to_owned(), "token".to_owned()] };
    let root = FieldPath::root();
    let other = FieldPath { segments: vec!["open".to_owned()] };
    assert!(env.is_read_only_event_path(&secret));
    assert!(env.is_read_only_event_path(&nested));
    assert!(env.is_read_only_event_path(&root));
    assert!(!env.is_read_only_event_path(&other));
    assert!(!env.is_read_only_metadata_path(&secret));
    assert_eq!(*env.target_kind(), bytes_only());
    assert_eq!(PathRoot::Event, PathRoot::Event);

    let locked = env.read_only();
    assert!(locked.is_read_only_metadata_path(&other));
}

#[test]
fn vrl_runtime_parses_its_name() {
    assert_eq!(VrlRuntime::default(), VrlRuntime::Ast);
    assert_eq!(VrlRuntime::from_str("ast"), Ok(VrlRuntime::Ast));
    assert_eq!(VrlRuntime::from_str("vectorized"), Ok(VrlRuntime::Vectorized));
    assert_eq!(VrlRuntime::from_str("llvm"), Ok(VrlRuntime::Llvm));
    assert!(VrlRuntime::from_str("jit").is_err());
    assert_eq!(VrlRuntime::default().as_str(), "ast".to_owned());
    assert_eq!(VrlRuntime::Llvm.as_str(), "llvm".to_owned());
}
