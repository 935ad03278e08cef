use phantom_coerce::{compile_entity, AttrItem, EntityDecl, Tagged};

fn kv(key: &str, value: &str) -> AttrItem {
    AttrItem::KeyValue { key: key.to_string(), value: value.to_string() }
}

#[test]
fn single_param_coercion_restricted() {
    let decl = EntityDecl {
        name: "TypedPathRestricted".to_string(),
        generic_params: vec!["Base".to_string(), "Type".to_string()],
        fragments: vec![vec![
            kv("borrowed_from", "TypedPathRestricted<Absolute | Relative, _>"),
            kv("borrowed_to", "TypedPathRestricted<SomeBase, _>"),
        ]],
    };
    let out = compile_entity(&decl).unwrap();
    assert_eq!(out.rules.borrowed.len(), 2);
    assert_eq!(out.rules.borrowed[0].source.as_str(), "TypedPathRestricted<Absolute, Type>");
    assert_eq!(out.rules.borrowed[1].source.as_str(), "TypedPathRestricted<Relative, Type>");
    assert_eq!(out.rules.borrowed[0].target.as_str(), "TypedPathRestricted<SomeBase, Type>");
    // The type hole preserves the second parameter on both sides.
    assert_eq!(out.rules.borrowed[0].wildcard_positions, vec![1usize]);
    assert_eq!(out.rules.borrowed[1].wildcard_positions, vec![1usize]);

    // Coerce the Base parameter only; the hole keeps the Type parameter.
    let path = Tagged::new(
        out.rules.borrowed[0].source.clone(),
        "/home/user/file.txt".to_string(),
    );
    let coerced = path.coerce(&out.rules.borrowed[0]);
    assert_eq!(coerced.value.as_str(), "/home/user/file.txt");

    let path = Tagged::new(out.rules.borrowed[1].source.clone(), "user/dir".to_string());
    let coerced = path.coerce(&out.rules.borrowed[1]);
    assert_eq!(coerced.value.as_str(), "user/dir");
}
