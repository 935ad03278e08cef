use phantom_coerce::{compile_entity, AttrItem, EntityDecl, Tagged};

fn kv(key: &str, value: &str) -> AttrItem {
    AttrItem::KeyValue { key: key.to_string(), value: value.to_string() }
}

fn ent(name: &str, params: &[&str], fragments: Vec<Vec<AttrItem>>) -> EntityDecl {
    EntityDecl {
        name: name.to_string(),
        generic_params: params.iter().map(|s| s.to_string()).collect(),
        fragments,
    }
}

#[test]
fn type_hole_in_second_position() {
    let decl = ent(
        "TypeHoleSecond",
        &["First", "Second"],
        vec![vec![
            kv("borrowed_from", "TypeHoleSecond<ParamA | ParamB, _>"),
            kv("borrowed_to", "TypeHoleSecond<GenericParam, _>"),
        ]],
    );
    let out = compile_entity(&decl).unwrap();
    assert_eq!(out.rules.borrowed.len(), 2);
    assert_eq!(out.rules.borrowed[0].source.as_str(), "TypeHoleSecond<ParamA, Second>");
    assert_eq!(out.rules.borrowed[1].source.as_str(), "TypeHoleSecond<ParamB, Second>");
    assert_eq!(out.rules.borrowed[0].target.as_str(), "TypeHoleSecond<GenericParam, Second>");
    assert_eq!(out.rules.borrowed[0].wildcard_positions, vec![1usize]);
    assert_eq!(out.rules.borrowed[1].wildcard_positions, vec![1usize]);

    // ParamA -> GenericParam, the second parameter preserved by the hole.
    let test_a = Tagged::new(
        out.rules.borrowed[0].source.clone(),
        "type hole second A".to_string(),
    );
    let coerced_a = test_a.coerce(&out.rules.borrowed[0]);
    assert_eq!(coerced_a.value.as_str(), "type hole second A");

    // ParamB -> GenericParam, the second parameter preserved by the hole.
    let test_b = Tagged::new(
        out.rules.borrowed[1].source.clone(),
        "type hole second B".to_string(),
    );
    let coerced_b = test_b.coerce(&out.rules.borrowed[1]);
    assert_eq!(coerced_b.value.as_str(), "type hole second B");
}
