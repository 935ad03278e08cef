use phantom_coerce::{compile_entity, AttrItem, EntityDecl, Tagged};

fn kv(key: &str, value: &str) -> AttrItem {
    AttrItem::KeyValue { key: key.to_string(), value: value.to_string() }
}

fn ent(name: &str, params: &[&str], fragments: Vec<Vec<AttrItem>>) -> EntityDecl {
    EntityDecl {
        name: name.to_string(),
        generic_params: params.iter().map(|s| s.to_string()).collect(),
        fragments,
    }
}

#[test]
fn complex_coercion() {
    let decl = ent(
        "Complex",
        &["D", "S"],
        vec![vec![
            kv("borrowed_from", "Complex<A, State>"),
            kv("borrowed_to", "Complex<B, OtherState> | Complex<OtherData, AnotherState>"),
        ]],
    );
    let out = compile_entity(&decl).unwrap();
    assert_eq!(out.rules.borrowed.len(), 2);
    assert_eq!(out.rules.borrowed[0].target.as_str(), "Complex<B, OtherState>");
    assert_eq!(out.rules.borrowed[1].target.as_str(), "Complex<OtherData, AnotherState>");

    // Coercing to Complex<B, OtherState> (both params changed).
    let complex1 = Tagged::new("Complex<A, State>".to_string(), ("test1".to_string(), 123i32));
    let coerced1 = complex1.coerce(&out.rules.borrowed[0]);
    assert_eq!(coerced1.value.0.as_str(), "test1");
    assert_eq!(coerced1.value.1, 123);

    // Coercing to Complex<OtherData, AnotherState> (both params changed differently).
    let complex2 = Tagged::new("Complex<A, State>".to_string(), ("test2".to_string(), 456i32));
    let coerced2 = complex2.coerce(&out.rules.borrowed[1]);
    assert_eq!(coerced2.value.0.as_str(), "test2");
    assert_eq!(coerced2.value.1, 456);
}
