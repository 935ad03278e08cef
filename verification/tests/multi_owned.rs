use phantom_coerce::{compile_entity, AttrItem, EntityDecl, Tagged};

fn kv(key: &str, value: &str) -> AttrItem {
    AttrItem::KeyValue { key: key.to_string(), value: value.to_string() }
}

fn ent(name: &str, params: &[&str], fragments: Vec<Vec<AttrItem>>) -> EntityDecl {
    EntityDecl {
        name: name.to_string(),
        generic_params: params.iter().map(|s| s.to_string()).collect(),
        fragments,
    }
}

#[test]
fn multi_owned_coercion() {
    let decl = ent(
        "MultiOwned",
        &["P1", "P2"],
        vec![
            vec![kv("owned_from", "MultiOwned<Z, Z>"), kv("owned_to", "MultiOwned<X, Y>")],
            vec![kv("owned_from", "MultiOwned<X, Y>"), kv("owned_to", "MultiOwned<Y, X>")],
        ],
    );
    let out = compile_entity(&decl).unwrap();
    assert_eq!(out.rules.owned.len(), 2);

    let multi = Tagged::new("MultiOwned<Z, Z>".to_string(), vec![1i32, 2, 3, 4, 5]);

    // Coerce to X, Y.
    let coerced = multi.into_coerced(&out.rules.owned[0]);
    assert_eq!(coerced.ty.as_str(), "MultiOwned<X, Y>");
    assert_eq!(coerced.value.iter().sum::<i32>(), 15);

    // Owned coercions can chain.
    let coerced2 = coerced.into_coerced(&out.rules.owned[1]);
    assert_eq!(coerced2.ty.as_str(), "MultiOwned<Y, X>");
    assert_eq!(coerced2.value.iter().sum::<i32>(), 15);
}
