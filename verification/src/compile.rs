//! The whole pipeline for one declaring entity: every fragment is
//! validated and expanded, the rules are gathered per mode in declaration
//! order, and one descriptor per rule is emitted, borrowed rules first,
//! then owned, then cloned.

use vstd::prelude::*;
use crate::attr::{parse_coerce_attr, spec_parse_attr, AttrItem, AttrItemModel};
use crate::emit::{emit_for_rules, emit_rules, ConversionDescriptor, DescriptorModel};
use crate::error::{CompileError, ErrorModel};
use crate::mode::CoercionMode;
use crate::rules::{copy_usizes, expand_coercion_spec, spec_expand_spec, ExpandedRule, RuleModel};

verus! {

/// The validated rules of one entity, grouped by mode, each group in
/// declaration order.
#[derive(Debug)]
pub struct RuleSet {
    pub borrowed: Vec<ExpandedRule>,
    pub owned: Vec<ExpandedRule>,
    pub cloned: Vec<ExpandedRule>,
}

/// The specification-level shape of a [`RuleSet`].
pub struct RuleSetModel {
    pub borrowed: Seq<RuleModel>,
    pub owned: Seq<RuleModel>,
    pub cloned: Seq<RuleModel>,
}

impl View for RuleSet {
    type V = RuleSetModel;

    open spec fn view(&self) -> RuleSetModel {
        RuleSetModel {
            borrowed: self.borrowed.deep_view(),
            owned: self.owned.deep_view(),
            cloned: self.cloned.deep_view(),
        }
    }
}

/// One declaring entity: its name, its ordered generic parameter names,
/// and its declaration fragments.
#[derive(Debug)]
pub struct EntityDecl {
    pub name: String,
    pub generic_params: Vec<String>,
    pub fragments: Vec<Vec<AttrItem>>,
}

/// The specification-level shape of an [`EntityDecl`].
pub struct EntityModel {
    pub name: Seq<char>,
    pub generic_params: Seq<Seq<char>>,
    pub fragments: Seq<Seq<AttrItemModel>>,
}

impl View for EntityDecl {
    type V = EntityModel;

    open spec fn view(&self) -> EntityModel {
        EntityModel {
            name: self.name@,
            generic_params: self.generic_params.deep_view(),
            fragments: self.fragments.deep_view(),
        }
    }
}

/// What one compilation yields: the rule set and the descriptor list.
#[derive(Debug)]
pub struct CompileOutput {
    pub rules: RuleSet,
    pub descriptors: Vec<ConversionDescriptor>,
}

/// The specification-level shape of a [`CompileOutput`].
pub struct OutputModel {
    pub rules: RuleSetModel,
    pub descriptors: Seq<DescriptorModel>,
}

impl View for CompileOutput {
    type V = OutputModel;

    open spec fn view(&self) -> OutputModel {
        OutputModel { rules: self.rules@, descriptors: self.descriptors.deep_view() }
    }
}

pub open spec fn empty_ruleset() -> RuleSetModel {
    RuleSetModel { borrowed: Seq::empty(), owned: Seq::empty(), cloned: Seq::empty() }
}

/// The rule set with one fragment's rules appended to its mode's group.
pub open spec fn add_rules(
    acc: RuleSetModel,
    kind: CoercionMode,
    rules: Seq<RuleModel>,
) -> RuleSetModel {
    match kind {
        CoercionMode::Borrowed => RuleSetModel { borrowed: acc.borrowed + rules, ..acc },
        CoercionMode::Owned => RuleSetModel { owned: acc.owned + rules, ..acc },
        CoercionMode::Cloned => RuleSetModel { cloned: acc.cloned + rules, ..acc },
    }
}

/// Every fragment validated and expanded in order, its rules gathered per
/// mode; the first fault of any fragment stops the compilation.
pub open spec fn collect_rules(
    frags: Seq<Seq<AttrItemModel>>,
    params: Seq<Seq<char>>,
    acc: RuleSetModel,
) -> Result<RuleSetModel, ErrorModel>
    decreases frags.len(),
{
    if frags.len() == 0 {
        Ok(acc)
    } else {
        match spec_parse_attr(frags[0]) {
            Err(e) => Err(e),
            Ok(c) => match spec_expand_spec(c, params) {
                Err(e) => Err(e),
                Ok(rules) => collect_rules(
                    frags.drop_first(),
                    params,
                    add_rules(acc, c.kind, rules),
                ),
            },
        }
    }
}

/// The descriptors of a rule set: borrowed rules first, then owned, then
/// cloned, each group in declaration order.
pub open spec fn emit_all(
    entity: Seq<char>,
    params: Seq<Seq<char>>,
    rs: RuleSetModel,
) -> Seq<DescriptorModel> {
    emit_rules(entity, params, rs.borrowed) + emit_rules(entity, params, rs.owned) + emit_rules(
        entity,
        params,
        rs.cloned,
    )
}

/// What compiling one declaring entity yields: an entity with no
/// fragments is itself a fault, since the compiler's purpose is to
/// produce at least one conversion; otherwise the gathered rule set and
/// its descriptors.
pub open spec fn spec_compile(d: EntityModel) -> Result<OutputModel, ErrorModel> {
    if d.fragments.len() == 0 {
        Err(ErrorModel::NoDeclarations)
    } else {
        match collect_rules(d.fragments, d.generic_params, empty_ruleset()) {
            Err(e) => Err(e),
            Ok(rs) => Ok(OutputModel {
                rules: rs,
                descriptors: emit_all(d.name, d.generic_params, rs),
            }),
        }
    }
}

/// The pipeline is a function of the declaration alone: equal declaration
/// sets compile to equal outputs, descriptors in identical order. Together
/// with `compile_entity`'s contract, two runs over the same declarations
/// return the same value.
pub proof fn lemma_compile_deterministic(d1: EntityModel, d2: EntityModel)
    requires
        d1 == d2,
    ensures
        spec_compile(d1) == spec_compile(d2),
{
}

/// A copy of one rule.
fn copy_rule(r: &ExpandedRule) -> (c: ExpandedRule)
    ensures
        c@ == r@,
{
    ExpandedRule {
        source: r.source.clone(),
        target: r.target.clone(),
        mode: r.mode,
        wildcard_positions: copy_usizes(&r.wildcard_positions),
        secondary_view: r.secondary_view,
    }
}

/// Appends copies of the rules of `src` to `dst`.
#[verifier::loop_isolation(false)]
fn append_rules(dst: &mut Vec<ExpandedRule>, src: &Vec<ExpandedRule>)
    ensures
        final(dst).deep_view() == old(dst).deep_view() + src.deep_view(),
{
    let mut i: usize = 0;
    proof {
        assert(dst.deep_view() + src.deep_view().take(0) =~= dst.deep_view());
    }
    while i < src.len()
        invariant
            i <= src@.len(),
            dst.deep_view() == old(dst).deep_view() + src.deep_view().take(i as int),
        decreases src.len() - i,
    {
        let ghost old_dv = dst.deep_view();
        let c = copy_rule(&src[i]);
        let ghost csnap = c;
        dst.push(c);
        i = i + 1;
        proof {
            assert(src@[i - 1].deep_view() == src@[i - 1]@);
            assert(dst.deep_view() =~= old_dv.push(csnap@));
            assert(csnap@ == src.deep_view()[i - 1]);
            assert(old(dst).deep_view() + src.deep_view().take(i as int)
                =~= old_dv.push(csnap@));
        }
    }
    proof {
        assert(src.deep_view().take(i as int) =~= src.deep_view());
    }
}

/// Compiles one declaring entity end to end, as `spec_compile` describes:
/// every fragment is validated and expanded, the rules are gathered per
/// mode in declaration order, and one descriptor per rule is emitted,
/// borrowed first, then owned, then cloned.
#[verifier::loop_isolation(false)]
pub fn compile_entity(decl: &EntityDecl) -> (r: Result<CompileOutput, CompileError>)
    ensures
        match r {
            Ok(o) => spec_compile(decl@) == Ok::<_, ErrorModel>(o@),
            Err(e) => spec_compile(decl@) == Err::<OutputModel, _>(e@),
        },
{
    if decl.fragments.len() == 0 {
        return Err(CompileError::NoDeclarations);
    }
    let ghost fragsdv = decl.fragments.deep_view();
    let ghost pdv = decl.generic_params.deep_view();
    let mut borrowed: Vec<ExpandedRule> = Vec::new();
    let mut owned: Vec<ExpandedRule> = Vec::new();
    let mut cloned_rules: Vec<ExpandedRule> = Vec::new();
    let mut i: usize = 0;
    proof {
        assert(fragsdv.skip(0) =~= fragsdv);
        assert(borrowed.deep_view() =~= Seq::<RuleModel>::empty());
        assert(owned.deep_view() =~= Seq::<RuleModel>::empty());
        assert(cloned_rules.deep_view() =~= Seq::<RuleModel>::empty());
    }
    while i < decl.fragments.len()
        invariant
            i <= decl.fragments@.len(),
            fragsdv.len() == decl.fragments@.len(),
            collect_rules(
                fragsdv.skip(i as int),
                pdv,
                RuleSetModel {
                    borrowed: borrowed.deep_view(),
                    owned: owned.deep_view(),
                    cloned: cloned_rules.deep_view(),
                },
            ) == collect_rules(fragsdv, pdv, empty_ruleset()),
        decreases decl.fragments.len() - i,
    {
        let ghost rest = fragsdv.skip(i as int);
        proof {
            assert(decl.fragments@[i as int].deep_view() == rest[0]);
            assert(rest.drop_first() =~= fragsdv.skip(i as int + 1));
        }
        let c = match parse_coerce_attr(&decl.fragments[i]) {
            Ok(c) => c,
            Err(e) => {
                return Err(e);
            },
        };
        let rules = match expand_coercion_spec(&c, &decl.generic_params) {
            Ok(rules) => rules,
            Err(e) => {
                return Err(e);
            },
        };
        let ghost old_b = borrowed.deep_view();
        let ghost old_o = owned.deep_view();
        let ghost old_c = cloned_rules.deep_view();
        match c.kind {
            CoercionMode::Borrowed => {
                append_rules(&mut borrowed, &rules);
            },
            CoercionMode::Owned => {
                append_rules(&mut owned, &rules);
            },
            CoercionMode::Cloned => {
                append_rules(&mut cloned_rules, &rules);
            },
        }
        i = i + 1;
    }
    proof {
        assert(fragsdv.skip(i as int) =~= Seq::<Seq<AttrItemModel>>::empty());
    }
    let rs = RuleSet { borrowed, owned, cloned: cloned_rules };
    let mut descriptors: Vec<ConversionDescriptor> = Vec::new();
    proof {
        assert(descriptors.deep_view() =~= Seq::<DescriptorModel>::empty());
    }
    emit_for_rules(&decl.name, &decl.generic_params, &rs.borrowed, &mut descriptors);
    emit_for_rules(&decl.name, &decl.generic_params, &rs.owned, &mut descriptors);
    emit_for_rules(&decl.name, &decl.generic_params, &rs.cloned, &mut descriptors);
    proof {
        assert(descriptors.deep_view() =~= emit_all(decl@.name, pdv, rs@));
    }
    Ok(CompileOutput { rules: rs, descriptors })
}

} // verus!
