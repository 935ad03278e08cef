use phantom_coerce::{compile_entity, AttrItem, EntityDecl, Tagged};

fn kv(key: &str, value: &str) -> AttrItem {
    AttrItem::KeyValue { key: key.to_string(), value: value.to_string() }
}

fn ent(name: &str, params: &[&str], fragments: Vec<Vec<AttrItem>>) -> EntityDecl {
    EntityDecl {
        name: name.to_string(),
        generic_params: params.iter().map(|s| s.to_string()).collect(),
        fragments,
    }
}

#[test]
fn asref_integration() {
    let decl = ent(
        "AsRefTest",
        &["M"],
        vec![vec![
            kv("borrowed_from", "AsRefTest<WithAsRef>"),
            kv("borrowed_to", "AsRefTest<ToAsRef>"),
            AttrItem::Marker { name: "asref".to_string() },
        ]],
    );
    let out = compile_entity(&decl).unwrap();
    assert_eq!(out.rules.borrowed.len(), 1);
    let rule = &out.rules.borrowed[0];
    assert_eq!(rule.source.as_str(), "AsRefTest<WithAsRef>");
    assert_eq!(rule.target.as_str(), "AsRefTest<ToAsRef>");
    assert!(rule.secondary_view);
    assert!(out.descriptors[0].emit_secondary);

    let test = Tagged::new("AsRefTest<WithAsRef>".to_string(), 123i32);

    // Can use the secondary accessor's view.
    let as_ref = test.coerce(rule);
    assert_eq!(*as_ref.value, 123);

    // The secondary accessor forwards to the main operation.
    let coerced = test.coerce(rule);
    assert_eq!(*coerced.value, 123);

    // A repeated borrowed conversion still sees the same payload.
    let turbofish = test.coerce(rule);
    assert_eq!(*turbofish.value, 123);
}
