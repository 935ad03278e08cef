use phantom_coerce::{compile_entity, AttrItem, EntityDecl, Tagged};

fn kv(key: &str, value: &str) -> AttrItem {
    AttrItem::KeyValue { key: key.to_string(), value: value.to_string() }
}

fn ent(name: &str, params: &[&str], fragments: Vec<Vec<AttrItem>>) -> EntityDecl {
    EntityDecl {
        name: name.to_string(),
        generic_params: params.iter().map(|s| s.to_string()).collect(),
        fragments,
    }
}

#[test]
fn nested_parameter_and_top_level_alternatives() {
    let decl = ent(
        "NestedAlternatives",
        &["First", "Second"],
        vec![vec![
            kv(
                "borrowed_from",
                "NestedAlternatives<SourceA | SourceB, SourceX | SourceY> | NestedAlternatives<SourceC, SourceZ>",
            ),
            kv(
                "borrowed_to",
                "NestedAlternatives<TargetM | TargetN, TargetP | TargetQ> | NestedAlternatives<TargetO, TargetR> | NestedAlternatives<TargetS | TargetT, TargetU | TargetV>",
            ),
        ]],
    );
    let out = compile_entity(&decl).unwrap();

    // The source side denotes 2x2 + 1 = 5 alternatives, the target side
    // 2x2 + 1 + 2x2 = 9; the Cartesian product holds 45 rules.
    assert_eq!(out.rules.borrowed.len(), 45);
    assert_eq!(out.descriptors.len(), 45);

    let targets = [
        "NestedAlternatives<TargetM, TargetP>",
        "NestedAlternatives<TargetM, TargetQ>",
        "NestedAlternatives<TargetN, TargetP>",
        "NestedAlternatives<TargetN, TargetQ>",
        "NestedAlternatives<TargetO, TargetR>",
        "NestedAlternatives<TargetS, TargetU>",
        "NestedAlternatives<TargetS, TargetV>",
        "NestedAlternatives<TargetT, TargetU>",
        "NestedAlternatives<TargetT, TargetV>",
    ];
    let sources = [
        "NestedAlternatives<SourceA, SourceX>",
        "NestedAlternatives<SourceA, SourceY>",
        "NestedAlternatives<SourceB, SourceX>",
        "NestedAlternatives<SourceB, SourceY>",
        "NestedAlternatives<SourceC, SourceZ>",
    ];
    for (si, source) in sources.iter().enumerate() {
        for (ti, target) in targets.iter().enumerate() {
            let rule = &out.rules.borrowed[si * targets.len() + ti];
            assert_eq!(rule.source.as_str(), *source);
            assert_eq!(rule.target.as_str(), *target);
        }
    }

    // Conversions from each source alternative carry their payload through.
    let ax = Tagged::new(sources[0].to_string(), ());
    let _ = ax.coerce(&out.rules.borrowed[0]);
    let ay = Tagged::new(sources[1].to_string(), ());
    let _ = ay.coerce(&out.rules.borrowed[9 + 4]);
    let bx = Tagged::new(sources[2].to_string(), ());
    let _ = bx.coerce(&out.rules.borrowed[2 * 9 + 5]);
    let by = Tagged::new(sources[3].to_string(), ());
    let _ = by.coerce(&out.rules.borrowed[3 * 9 + 6]);
    let cz = Tagged::new(sources[4].to_string(), ());
    let _ = cz.coerce(&out.rules.borrowed[4 * 9 + 8]);
}
