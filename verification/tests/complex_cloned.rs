use phantom_coerce::{compile_entity, AttrItem, EntityDecl, Tagged};

fn kv(key: &str, value: &str) -> AttrItem {
    AttrItem::KeyValue { key: key.to_string(), value: value.to_string() }
}

fn ent(name: &str, params: &[&str], fragments: Vec<Vec<AttrItem>>) -> EntityDecl {
    EntityDecl {
        name: name.to_string(),
        generic_params: params.iter().map(|s| s.to_string()).collect(),
        fragments,
    }
}

#[test]
fn complex_cloned_coercion() {
    let decl = ent(
        "ComplexCloned",
        &["P1", "P2"],
        vec![vec![
            kv("cloned_from", "ComplexCloned<A, X>"),
            kv("cloned_to", "ComplexCloned<B, Y> | ComplexCloned<A, Y>"),
        ]],
    );
    let out = compile_entity(&decl).unwrap();
    assert_eq!(out.rules.cloned.len(), 2);

    let data: Vec<String> = ["one", "two", "three"].iter().map(|s| s.to_string()).collect();
    let complex = Tagged::new("ComplexCloned<A, X>".to_string(), (data, 42i32));

    // Clone and coerce to different markers.
    let coerced1 = complex.to_coerced(&out.rules.cloned[0]);
    assert_eq!(coerced1.ty.as_str(), "ComplexCloned<B, Y>");
    assert_eq!(coerced1.value.1, 42);
    assert_eq!(coerced1.value.0.len(), 3);

    // Original still works.
    assert_eq!(complex.value.1, 42);

    // Can coerce to a different target.
    let coerced2 = complex.to_coerced(&out.rules.cloned[1]);
    assert_eq!(coerced2.ty.as_str(), "ComplexCloned<A, Y>");
    assert_eq!(coerced2.value.1, 42);
    assert_eq!(coerced2.value.0.len(), 3);
}
