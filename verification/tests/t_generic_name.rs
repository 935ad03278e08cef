use phantom_coerce::{compile_entity, AttrItem, EntityDecl, Tagged};

fn kv(key: &str, value: &str) -> AttrItem {
    AttrItem::KeyValue { key: key.to_string(), value: value.to_string() }
}

#[test]
fn t_generic_name_no_longer_conflicts() {
    // An entity whose generic parameter is named T compiles like any other.
    let decl = EntityDecl {
        name: "UsesT".to_string(),
        generic_params: vec!["T".to_string()],
        fragments: vec![vec![
            kv("borrowed_from", "UsesT<TypeA>"),
            kv("borrowed_to", "UsesT<TypeB>"),
        ]],
    };
    let out = compile_entity(&decl).unwrap();
    assert_eq!(out.rules.borrowed.len(), 1);
    assert_eq!(out.rules.borrowed[0].source.as_str(), "UsesT<TypeA>");
    assert_eq!(out.rules.borrowed[0].target.as_str(), "UsesT<TypeB>");

    let test = Tagged::new("UsesT<TypeA>".to_string(), ());
    let _coerced = test.coerce(&out.rules.borrowed[0]);
}
