use phantom_coerce::{
    compile_entity, expand_type_parameter_alternatives, parse_coerce_attr, parse_pattern,
    parse_target_with_type_holes, split_by_pipe_respecting_brackets, AttrItem, CoercionMode,
    CompileError, EntityDecl, Slot, Tagged,
};

fn kv(key: &str, value: &str) -> AttrItem {
    AttrItem::KeyValue { key: key.to_string(), value: value.to_string() }
}

fn ent(name: &str, params: &[&str], fragments: Vec<Vec<AttrItem>>) -> EntityDecl {
    EntityDecl {
        name: name.to_string(),
        generic_params: params.iter().map(|s| s.to_string()).collect(),
        fragments,
    }
}

#[test]
fn splits_on_top_level_pipes_only() {
    let alts = split_by_pipe_respecting_brackets("Container<TypeA> | Container<TypeB>");
    assert_eq!(alts, vec!["Container<TypeA>".to_string(), "Container<TypeB>".to_string()]);

    let alts = split_by_pipe_respecting_brackets("TypedPath<Absolute | Relative, File>");
    assert_eq!(
        alts,
        vec!["TypedPath<Absolute, File>".to_string(), "TypedPath<Relative, File>".to_string()]
    );

    let alts = split_by_pipe_respecting_brackets("Plain");
    assert_eq!(alts, vec!["Plain".to_string()]);
}

#[test]
fn expands_parameter_alternatives_as_cartesian_product() {
    let alts = expand_type_parameter_alternatives("T<A | B, X | Y>");
    assert_eq!(
        alts,
        vec![
            "T<A, X>".to_string(),
            "T<A, Y>".to_string(),
            "T<B, X>".to_string(),
            "T<B, Y>".to_string(),
        ]
    );
}

#[test]
fn parses_base_and_slots() {
    let p = parse_pattern("TypedPath<Absolute, _>").unwrap();
    assert_eq!(p.base.as_str(), "TypedPath");
    assert_eq!(p.slots.len(), 2);
    assert!(matches!(&p.slots[0], Slot::Concrete(n) if n.as_str() == "Absolute"));
    assert!(matches!(&p.slots[1], Slot::Wildcard));

    // A pattern without brackets has zero slots.
    let p = parse_pattern("  Simple  ").unwrap();
    assert_eq!(p.base.as_str(), "Simple");
    assert_eq!(p.slots.len(), 0);
}

#[test]
fn rejects_malformed_patterns() {
    assert!(matches!(
        parse_pattern("Foo<Bar"),
        Err(CompileError::UnbalancedBrackets { position: 7, .. })
    ));
    assert!(matches!(
        parse_pattern("Foo<A, , B>"),
        Err(CompileError::EmptySegment { segment: 1, .. })
    ));
    assert!(matches!(
        parse_pattern("Foo<A> junk"),
        Err(CompileError::TrailingContent { position: 7, .. })
    ));
}

#[test]
fn rejects_empty_bracket_pair() {
    assert!(matches!(
        parse_pattern("Foo<>"),
        Err(CompileError::EmptySegment { segment: 0, .. })
    ));
}

#[test]
fn blank_alternatives_are_dropped() {
    // A trailing or doubled pipe leaves no extra alternative behind.
    let alts = split_by_pipe_respecting_brackets("A |");
    assert_eq!(alts, vec!["A".to_string()]);
    let alts = split_by_pipe_respecting_brackets("A || B");
    assert_eq!(alts, vec!["A".to_string(), "B".to_string()]);
}

#[test]
fn diagnostics_carry_a_fixed_kind_message() {
    let e = parse_pattern("Foo<Bar").unwrap_err();
    assert_eq!(e.describe(), "unbalanced angle brackets in pattern");
    let e = parse_coerce_attr(&vec![kv("borrowed_from", "T<A>")]).unwrap_err();
    assert_eq!(e.describe(), "no target pattern in the declaration");
}

#[test]
fn rejects_wildcard_beyond_parameter_count() {
    let params: Vec<String> = vec!["Only".to_string()];
    let r = parse_target_with_type_holes("Foo<A, _>", &params);
    assert!(matches!(
        r,
        Err(CompileError::WildcardOutOfRange { position: 1, available: 1, .. })
    ));
}

#[test]
fn resolves_wildcards_by_position() {
    let params: Vec<String> = vec!["First".to_string(), "Second".to_string()];
    let r = parse_target_with_type_holes("T<_, A>", &params).unwrap();
    assert_eq!(r.text.as_str(), "T<First, A>");
    assert_eq!(r.type_hole_positions, vec![0usize]);
}

#[test]
fn parameter_level_expansion_keeps_hole_position() {
    // Base<X | Y, _> against Base<Z, _> yields exactly two rules, both
    // holding the second slot fixed.
    let decl = ent(
        "Base",
        &["P", "Q"],
        vec![vec![kv("borrowed_from", "Base<X | Y, _>"), kv("borrowed_to", "Base<Z, _>")]],
    );
    let out = compile_entity(&decl).unwrap();
    assert_eq!(out.rules.borrowed.len(), 2);
    assert_eq!(out.rules.borrowed[0].source.as_str(), "Base<X, Q>");
    assert_eq!(out.rules.borrowed[1].source.as_str(), "Base<Y, Q>");
    assert_eq!(out.rules.borrowed[0].target.as_str(), "Base<Z, Q>");
    assert_eq!(out.rules.borrowed[1].target.as_str(), "Base<Z, Q>");
    assert_eq!(out.rules.borrowed[0].wildcard_positions, vec![1usize]);
    assert_eq!(out.rules.borrowed[1].wildcard_positions, vec![1usize]);
}

#[test]
fn identity_coercion_always_fails() {
    for (from_key, to_key) in
        [("borrowed_from", "borrowed_to"), ("owned_from", "owned_to"), ("cloned_from", "cloned_to")]
    {
        let r = parse_coerce_attr(&vec![kv(from_key, "Base<X>"), kv(to_key, "Base<X>")]);
        assert!(matches!(r, Err(CompileError::IdentityCoercion { .. })));
    }
}

#[test]
fn identity_produced_by_expansion_fails() {
    // The raw fragment strings differ, but one expanded pair is the
    // identity A<X> -> A<X>: the rule validator rejects it.
    let decl = ent(
        "A",
        &["T"],
        vec![vec![kv("borrowed_from", "A<X|Y>"), kv("borrowed_to", "A<X>")]],
    );
    assert!(matches!(compile_entity(&decl), Err(CompileError::IdentityCoercion { .. })));
}

#[test]
fn identity_produced_by_resolution_fails() {
    // The raw strings differ only in whitespace around the wildcard; both
    // sides resolve to the same concrete text with the same hole set.
    let decl = ent(
        "T",
        &["P"],
        vec![vec![kv("borrowed_from", "T< _>"), kv("borrowed_to", "T<_>")]],
    );
    match compile_entity(&decl) {
        Err(CompileError::IdentityCoercion { pattern }) => {
            assert_eq!(pattern.as_str(), "T<P>");
        },
        _ => panic!("expected an identity coercion fault"),
    }
}

#[test]
fn mode_mismatch_always_fails() {
    let r = parse_coerce_attr(&vec![
        kv("borrowed_from", "Msg<Json>"),
        kv("cloned_to", "Msg<Any>"),
    ]);
    assert!(matches!(
        r,
        Err(CompileError::ModeMismatch {
            from_mode: CoercionMode::Borrowed,
            to_mode: CoercionMode::Cloned,
        })
    ));
}

#[test]
fn fragment_faults_are_reported_with_their_values() {
    // No mode named at all.
    let r = parse_coerce_attr(&vec![AttrItem::Marker { name: "asref".to_string() }]);
    assert!(matches!(r, Err(CompileError::MissingMode)));

    // A target without a source.
    let r = parse_coerce_attr(&vec![kv("borrowed_to", "T<B>")]);
    assert!(matches!(r, Err(CompileError::MissingSource)));

    // A source without a target.
    let r = parse_coerce_attr(&vec![kv("borrowed_from", "T<A>")]);
    assert!(matches!(r, Err(CompileError::MissingTarget)));

    // The target side given twice.
    let r = parse_coerce_attr(&vec![
        kv("borrowed_from", "T<A>"),
        kv("borrowed_to", "T<B>"),
        kv("borrowed_to", "T<C>"),
    ]);
    assert!(matches!(r, Err(CompileError::DuplicateTarget { .. })));

    // A blank pattern.
    let r = parse_coerce_attr(&vec![kv("borrowed_from", "   "), kv("borrowed_to", "T<B>")]);
    assert!(matches!(r, Err(CompileError::EmptyValue { .. })));

    // An unknown key and an unknown marker.
    let r = parse_coerce_attr(&vec![kv("converted_from", "T<A>")]);
    assert!(matches!(r, Err(CompileError::UnknownKey { .. })));
    let r = parse_coerce_attr(&vec![AttrItem::Marker { name: "deref".to_string() }]);
    assert!(matches!(r, Err(CompileError::UnknownMarker { .. })));

    // The secondary view outside the borrowed mode.
    let r = parse_coerce_attr(&vec![
        kv("owned_from", "T<A>"),
        kv("owned_to", "T<B>"),
        AttrItem::Marker { name: "asref".to_string() },
    ]);
    assert!(matches!(r, Err(CompileError::SecondaryViewNotBorrowed)));

    // An entity with no fragments at all.
    let r = compile_entity(&ent("Empty", &["T"], vec![]));
    assert!(matches!(r, Err(CompileError::NoDeclarations)));
}

#[test]
fn wildcard_parity_mismatch_is_rejected() {
    // T<_, A> against T<B, _>: positions {0} against {1}.
    let decl = ent(
        "T",
        &["First", "Second"],
        vec![vec![kv("borrowed_from", "T<_, A>"), kv("borrowed_to", "T<B, _>")]],
    );
    let r = compile_entity(&decl);
    match r {
        Err(CompileError::ParityMismatch { source_positions, target_positions, .. }) => {
            assert_eq!(source_positions, vec![0usize]);
            assert_eq!(target_positions, vec![1usize]);
        },
        _ => panic!("expected a parity mismatch"),
    }
}

#[test]
fn concrete_slots_are_not_wildcards() {
    // A slot whose source and target values coincide is still concrete:
    // positions are wildcard only where the literal underscore appeared.
    let decl = ent(
        "Path",
        &["Base", "Kind"],
        vec![vec![
            kv("borrowed_from", "Path<Absolute|Relative, File>"),
            kv("borrowed_to", "Path<Generic, File>"),
        ]],
    );
    let out = compile_entity(&decl).unwrap();
    assert_eq!(out.rules.borrowed.len(), 2);
    assert_eq!(out.rules.borrowed[0].source.as_str(), "Path<Absolute, File>");
    assert_eq!(out.rules.borrowed[1].source.as_str(), "Path<Relative, File>");
    for rule in &out.rules.borrowed {
        assert_eq!(rule.mode, CoercionMode::Borrowed);
        assert_eq!(rule.target.as_str(), "Path<Generic, File>");
        assert!(rule.wildcard_positions.is_empty());
    }
}

#[test]
fn cloned_rules_duplicate_before_reinterpreting() {
    let decl = ent(
        "Msg",
        &["Format", "Priority"],
        vec![vec![
            kv("cloned_from", "Msg<Json|Xml|Proto, High>"),
            kv("cloned_to", "Msg<Any, High>"),
        ]],
    );
    let out = compile_entity(&decl).unwrap();
    assert_eq!(out.rules.cloned.len(), 3);
    assert_eq!(out.rules.cloned[0].source.as_str(), "Msg<Json, High>");
    assert_eq!(out.rules.cloned[1].source.as_str(), "Msg<Xml, High>");
    assert_eq!(out.rules.cloned[2].source.as_str(), "Msg<Proto, High>");
    assert_eq!(out.descriptors.len(), 3);
    for d in &out.descriptors {
        assert_eq!(d.mode, CoercionMode::Cloned);
        assert!(d.duplicate_first);
        assert_eq!(d.op_name.as_str(), "CoerceClonedMsg");
    }
}

#[test]
fn top_level_cartesian_count() {
    // Two source alternatives times three target alternatives.
    let decl = ent(
        "W",
        &["T"],
        vec![vec![
            kv("owned_from", "W<A> | W<B>"),
            kv("owned_to", "W<C> | W<D> | W<E>"),
        ]],
    );
    let out = compile_entity(&decl).unwrap();
    assert_eq!(out.rules.owned.len(), 6);
    let pairs: Vec<(String, String)> = out
        .rules
        .owned
        .iter()
        .map(|r| (r.source.clone(), r.target.clone()))
        .collect();
    let expected = [
        ("W<A>", "W<C>"),
        ("W<A>", "W<D>"),
        ("W<A>", "W<E>"),
        ("W<B>", "W<C>"),
        ("W<B>", "W<D>"),
        ("W<B>", "W<E>"),
    ];
    for (i, (s, t)) in expected.iter().enumerate() {
        assert_eq!(pairs[i].0.as_str(), *s);
        assert_eq!(pairs[i].1.as_str(), *t);
    }
}

#[test]
fn descriptor_names_follow_mode_and_entity() {
    let decl = ent(
        "Box9",
        &["T"],
        vec![
            vec![kv("borrowed_from", "Box9<A>"), kv("borrowed_to", "Box9<B>")],
            vec![kv("owned_from", "Box9<A>"), kv("owned_to", "Box9<B>")],
            vec![kv("cloned_from", "Box9<A>"), kv("cloned_to", "Box9<B>")],
        ],
    );
    let out = compile_entity(&decl).unwrap();
    assert_eq!(out.descriptors.len(), 3);
    assert_eq!(out.descriptors[0].op_name.as_str(), "CoerceRefBox9");
    assert_eq!(out.descriptors[1].op_name.as_str(), "CoerceOwnedBox9");
    assert_eq!(out.descriptors[2].op_name.as_str(), "CoerceClonedBox9");
    assert!(!out.descriptors[0].duplicate_first);
    assert!(!out.descriptors[1].duplicate_first);
    assert!(out.descriptors[2].duplicate_first);
}

#[test]
fn fixed_params_name_the_held_generics() {
    let decl = ent(
        "Pair",
        &["L", "R"],
        vec![vec![kv("borrowed_from", "Pair<_, _>"), kv("borrowed_to", "Pair<_, _>")]],
    );
    // Both slots wildcards on both sides: the raw fragments are identical,
    // so this is an identity coercion and is rejected.
    assert!(matches!(compile_entity(&decl), Err(CompileError::IdentityCoercion { .. })));

    let decl = ent(
        "Pair",
        &["L", "R"],
        vec![vec![kv("borrowed_from", "Pair<A, _>"), kv("borrowed_to", "Pair<B, _>")]],
    );
    let out = compile_entity(&decl).unwrap();
    assert_eq!(out.descriptors[0].fixed_params, vec!["R".to_string()]);
}

#[test]
fn pipeline_is_deterministic() {
    let mk = || {
        ent(
            "Det",
            &["A", "B"],
            vec![vec![
                kv("borrowed_from", "Det<X | Y, _>"),
                kv("borrowed_to", "Det<Z, _>"),
            ]],
        )
    };
    let out1 = compile_entity(&mk()).unwrap();
    let out2 = compile_entity(&mk()).unwrap();
    let names1: Vec<String> = out1.descriptors.iter().map(|d| d.op_name.clone()).collect();
    let names2: Vec<String> = out2.descriptors.iter().map(|d| d.op_name.clone()).collect();
    assert_eq!(names1, names2);
    let targets1: Vec<String> = out1.rules.borrowed.iter().map(|r| r.target.clone()).collect();
    let targets2: Vec<String> = out2.rules.borrowed.iter().map(|r| r.target.clone()).collect();
    assert_eq!(targets1, targets2);
}

#[test]
fn tagged_conversions_respect_their_rules() {
    let decl = ent(
        "Env",
        &["S"],
        vec![
            vec![kv("borrowed_from", "Env<Raw>"), kv("borrowed_to", "Env<Checked>")],
            vec![kv("owned_from", "Env<Raw>"), kv("owned_to", "Env<Checked>")],
        ],
    );
    let out = compile_entity(&decl).unwrap();
    let v = Tagged::new("Env<Raw>".to_string(), 7u64);
    assert!(v.applies(&out.rules.borrowed[0], CoercionMode::Borrowed));
    assert!(!v.applies(&out.rules.borrowed[0], CoercionMode::Owned));
    assert!(!v.applies(&out.rules.owned[0], CoercionMode::Borrowed));
    let view = v.coerce(&out.rules.borrowed[0]);
    assert_eq!(view.ty.as_str(), "Env<Checked>");
    let moved = v.into_coerced(&out.rules.owned[0]);
    assert_eq!(moved.ty.as_str(), "Env<Checked>");
    assert_eq!(moved.value, 7u64);
}
