use phantom_coerce::{compile_entity, AttrItem, CompileError, EntityDecl, Tagged};

fn kv(key: &str, value: &str) -> AttrItem {
    AttrItem::KeyValue { key: key.to_string(), value: value.to_string() }
}

/// The target set of this declaration contains the source pattern itself
/// (`TypedPath<Absolute, File>`), so the rule validator rejects it: an
/// expanded pair identical after trimming is an identity coercion.
fn typed_path_with_identity() -> EntityDecl {
    EntityDecl {
        name: "TypedPath".to_string(),
        generic_params: vec!["Base".to_string(), "Type".to_string()],
        fragments: vec![vec![
            kv("borrowed_from", "TypedPath<Absolute, File>"),
            kv("borrowed_to", "TypedPath<SomeBase | Absolute, File | SomeType>"),
        ]],
    }
}

/// The same conversions minus the identity pair: the three targets that
/// actually differ from the source.
fn typed_path() -> EntityDecl {
    EntityDecl {
        name: "TypedPath".to_string(),
        generic_params: vec!["Base".to_string(), "Type".to_string()],
        fragments: vec![vec![
            kv("borrowed_from", "TypedPath<Absolute, File>"),
            kv("borrowed_to", "TypedPath<SomeBase, File | SomeType> | TypedPath<Absolute, SomeType>"),
        ]],
    }
}

#[test]
fn single_param_coercion() {
    // A target set that includes the source itself fails validation.
    let r = compile_entity(&typed_path_with_identity());
    match r {
        Err(CompileError::IdentityCoercion { pattern }) => {
            assert_eq!(pattern.as_str(), "TypedPath<Absolute, File>");
        },
        _ => panic!("expected an identity coercion fault"),
    }

    let out = compile_entity(&typed_path()).unwrap();
    assert_eq!(out.rules.borrowed.len(), 3);

    let path = Tagged::new("TypedPath<Absolute, File>".to_string(), "/home/user/file.txt".to_string());

    // Coerce the Base parameter.
    assert_eq!(out.rules.borrowed[0].target.as_str(), "TypedPath<SomeBase, File>");
    let coerced = path.coerce(&out.rules.borrowed[0]);
    assert_eq!(coerced.value.as_str(), "/home/user/file.txt");

    // Coerce the Type parameter.
    assert_eq!(out.rules.borrowed[2].target.as_str(), "TypedPath<Absolute, SomeType>");
    let coerced2 = path.coerce(&out.rules.borrowed[2]);
    assert_eq!(coerced2.value.as_str(), "/home/user/file.txt");
}

#[test]
fn multi_param_coercion() {
    let out = compile_entity(&typed_path()).unwrap();

    // Coerce both parameters at once.
    let path = Tagged::new("TypedPath<Absolute, File>".to_string(), "/home/user/file.txt".to_string());
    assert_eq!(out.rules.borrowed[1].target.as_str(), "TypedPath<SomeBase, SomeType>");
    let coerced = path.coerce(&out.rules.borrowed[1]);
    assert_eq!(coerced.value.as_str(), "/home/user/file.txt");
}
