use phantom_coerce::{compile_entity, AttrItem, EntityDecl, Tagged};

fn kv(key: &str, value: &str) -> AttrItem {
    AttrItem::KeyValue { key: key.to_string(), value: value.to_string() }
}

fn ent(name: &str, params: &[&str], fragments: Vec<Vec<AttrItem>>) -> EntityDecl {
    EntityDecl {
        name: name.to_string(),
        generic_params: params.iter().map(|s| s.to_string()).collect(),
        fragments,
    }
}

fn owned_entity() -> EntityDecl {
    ent(
        "Owned",
        &["Marker"],
        vec![
            vec![kv("owned_from", "Owned<OriginalOwned>"), kv("owned_to", "Owned<OtherOwned>")],
            vec![
                kv("borrowed_from", "Owned<OriginalOwned>"),
                kv("borrowed_to", "Owned<OtherOwned>"),
            ],
        ],
    )
}

#[test]
fn owned_coercion() {
    let out = compile_entity(&owned_entity()).unwrap();
    assert_eq!(out.rules.owned.len(), 1);

    let owned = Tagged::new("Owned<OriginalOwned>".to_string(), "hello".to_string());

    // The owned conversion consumes the original.
    let coerced = owned.into_coerced(&out.rules.owned[0]);
    assert_eq!(coerced.ty.as_str(), "Owned<OtherOwned>");
    assert_eq!(coerced.value.as_str(), "hello");
}

#[test]
fn borrowed_vs_owned() {
    let out = compile_entity(&owned_entity()).unwrap();
    assert_eq!(out.rules.borrowed.len(), 1);

    let owned1 = Tagged::new("Owned<OriginalOwned>".to_string(), "borrowed".to_string());

    // Borrowed coercion can be used multiple times.
    let borrowed1 = owned1.coerce(&out.rules.borrowed[0]);
    assert_eq!(borrowed1.value.as_str(), "borrowed");
    let borrowed2 = owned1.coerce(&out.rules.borrowed[0]);
    assert_eq!(borrowed2.value.as_str(), "borrowed");

    // Now consume it with the owned coercion.
    let owned_coerced = owned1.into_coerced(&out.rules.owned[0]);
    assert_eq!(owned_coerced.value.as_str(), "borrowed");
}
