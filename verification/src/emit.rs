//! The code emitter: each validated rule becomes one conversion
//! descriptor, carrying everything a downstream generator needs — the
//! operation name derived from mode and entity, the concrete source and
//! target types, the generic parameters held fixed by wildcards, whether a
//! secondary accessor is owed, and, for cloned conversions, that the source
//! must be duplicated before it is reinterpreted.

use vstd::prelude::*;
use crate::mode::CoercionMode;
use crate::rules::{ExpandedRule, RuleModel};
use crate::text::{append_chars, chars_to_string, str_to_chars};

verus! {

/// One conversion operation to generate.
#[derive(Debug)]
pub struct ConversionDescriptor {
    /// The name of the helper trait carrying this conversion, derived from
    /// the mode and the declaring entity's name.
    pub op_name: String,
    pub mode: CoercionMode,
    /// The concrete source type expression.
    pub source_type: String,
    /// The concrete target type expression.
    pub target_type: String,
    /// The generic parameters kept on the operation: those at wildcard
    /// positions, in order.
    pub fixed_params: Vec<String>,
    /// Whether an alternately named accessor forwarding to the main
    /// operation is also owed; only a borrowed conversion can request it.
    pub emit_secondary: bool,
    /// Whether the operation must duplicate the whole source value before
    /// reinterpreting it; exactly the cloned conversions, so that the
    /// original keeps its resources.
    pub duplicate_first: bool,
}

/// The specification-level shape of a [`ConversionDescriptor`].
pub struct DescriptorModel {
    pub op_name: Seq<char>,
    pub mode: CoercionMode,
    pub source_type: Seq<char>,
    pub target_type: Seq<char>,
    pub fixed_params: Seq<Seq<char>>,
    pub emit_secondary: bool,
    pub duplicate_first: bool,
}

impl View for ConversionDescriptor {
    type V = DescriptorModel;

    open spec fn view(&self) -> DescriptorModel {
        DescriptorModel {
            op_name: self.op_name@,
            mode: self.mode,
            source_type: self.source_type@,
            target_type: self.target_type@,
            fixed_params: self.fixed_params.deep_view(),
            emit_secondary: self.emit_secondary,
            duplicate_first: self.duplicate_first,
        }
    }
}

impl DeepView for ConversionDescriptor {
    type V = DescriptorModel;

    open spec fn deep_view(&self) -> DescriptorModel {
        self.view()
    }
}

/// The operation-name prefix of each mode.
pub open spec fn op_prefix(m: CoercionMode) -> Seq<char> {
    match m {
        CoercionMode::Borrowed => "CoerceRef"@,
        CoercionMode::Owned => "CoerceOwned"@,
        CoercionMode::Cloned => "CoerceCloned"@,
    }
}

/// The generic parameter names at the given positions, in order; a
/// position with no parameter contributes nothing.
pub open spec fn select_params(params: Seq<Seq<char>>, positions: Seq<usize>) -> Seq<Seq<char>>
    decreases positions.len(),
{
    if positions.len() == 0 {
        Seq::empty()
    } else {
        (if (positions[0] as int) < params.len() {
            seq![params[positions[0] as int]]
        } else {
            Seq::empty()
        }) + select_params(params, positions.drop_first())
    }
}

/// The descriptor one rule yields for a given entity.
pub open spec fn descriptor_of(
    entity: Seq<char>,
    params: Seq<Seq<char>>,
    r: RuleModel,
) -> DescriptorModel {
    DescriptorModel {
        op_name: op_prefix(r.mode) + entity,
        mode: r.mode,
        source_type: r.source,
        target_type: r.target,
        fixed_params: select_params(params, r.wildcard_positions),
        emit_secondary: r.secondary_view && r.mode is Borrowed,
        duplicate_first: r.mode is Cloned,
    }
}

/// One descriptor per rule, in order.
pub open spec fn emit_rules(
    entity: Seq<char>,
    params: Seq<Seq<char>>,
    rules: Seq<RuleModel>,
) -> Seq<DescriptorModel>
    decreases rules.len(),
{
    if rules.len() == 0 {
        Seq::empty()
    } else {
        seq![descriptor_of(entity, params, rules[0])] + emit_rules(
            entity,
            params,
            rules.drop_first(),
        )
    }
}

/// The generic parameter names at the wildcard positions, in order, as
/// `select_params` gives them: the parameters a generated operation keeps.
#[verifier::loop_isolation(false)]
pub fn extract_type_hole_generics(params: &Vec<String>, positions: &Vec<usize>) -> (r: Vec<
    String,
>)
    ensures
        r.deep_view() == select_params(params.deep_view(), positions@),
{
    let mut r: Vec<String> = Vec::new();
    let mut i: usize = 0;
    let ghost pdv = params.deep_view();
    proof {
        assert(positions@.skip(0) =~= positions@);
        assert(r.deep_view() =~= Seq::<Seq<char>>::empty());
        assert(Seq::<Seq<char>>::empty() + select_params(pdv, positions@)
            =~= select_params(pdv, positions@));
    }
    while i < positions.len()
        invariant
            i <= positions@.len(),
            r.deep_view() + select_params(pdv, positions@.skip(i as int))
                == select_params(pdv, positions@),
        decreases positions.len() - i,
    {
        let ghost rest = positions@.skip(i as int);
        let ghost old_dv = r.deep_view();
        proof {
            assert(rest[0] == positions@[i as int]);
            assert(rest.drop_first() =~= positions@.skip(i as int + 1));
        }
        let p = positions[i];
        if p < params.len() {
            let nm = params[p].clone();
            let ghost nmsnap = nm;
            r.push(nm);
            proof {
                assert(nmsnap.deep_view() == nmsnap@);
                assert(nmsnap@ == pdv[p as int]);
                assert(r.deep_view() =~= old_dv.push(nmsnap@));
                assert(old_dv.push(nmsnap@) + select_params(pdv, positions@.skip(i as int + 1))
                    =~= old_dv + (seq![pdv[p as int]]
                        + select_params(pdv, positions@.skip(i as int + 1))));
            }
        }
        i = i + 1;
    }
    proof {
        assert(positions@.skip(i as int) =~= Seq::<usize>::empty());
        assert(r.deep_view() + Seq::<Seq<char>>::empty() =~= r.deep_view());
    }
    r
}

/// The descriptor of one rule for the given entity, as `descriptor_of`
/// describes.
pub fn emit_descriptor(entity: &String, params: &Vec<String>, rule: &ExpandedRule) -> (d:
    ConversionDescriptor)
    ensures
        d@ == descriptor_of(entity@, params.deep_view(), rule@),
{
    let prefix = match rule.mode {
        CoercionMode::Borrowed => "CoerceRef",
        CoercionMode::Owned => "CoerceOwned",
        CoercionMode::Cloned => "CoerceCloned",
    };
    let mut name_chars = str_to_chars(prefix);
    let entity_chars = str_to_chars(entity.as_str());
    append_chars(&mut name_chars, &entity_chars);
    let op_name = chars_to_string(&name_chars);
    let fixed_params = extract_type_hole_generics(params, &rule.wildcard_positions);
    let emit_secondary = rule.secondary_view && (match rule.mode {
        CoercionMode::Borrowed => true,
        _ => false,
    });
    let duplicate_first = rule.mode.requires_duplicate_first();
    ConversionDescriptor {
        op_name,
        mode: rule.mode,
        source_type: rule.source.clone(),
        target_type: rule.target.clone(),
        fixed_params,
        emit_secondary,
        duplicate_first,
    }
}

/// Appends one descriptor per rule, in order, to `out`.
#[verifier::loop_isolation(false)]
pub fn emit_for_rules(
    entity: &String,
    params: &Vec<String>,
    rules: &Vec<ExpandedRule>,
    out: &mut Vec<ConversionDescriptor>,
)
    ensures
        final(out).deep_view() == old(out).deep_view() + emit_rules(
            entity@,
            params.deep_view(),
            rules.deep_view(),
        ),
{
    let ghost rdv = rules.deep_view();
    let ghost edv = entity@;
    let ghost pdv = params.deep_view();
    let mut i: usize = 0;
    proof {
        assert(rdv.skip(0) =~= rdv);
        assert(old(out).deep_view() + Seq::<DescriptorModel>::empty() =~= old(out).deep_view());
    }
    while i < rules.len()
        invariant
            i <= rules@.len(),
            rdv.len() == rules@.len(),
            out.deep_view() + emit_rules(edv, pdv, rdv.skip(i as int))
                == old(out).deep_view() + emit_rules(edv, pdv, rdv),
        decreases rules.len() - i,
    {
        let ghost rest = rdv.skip(i as int);
        let ghost old_dv = out.deep_view();
        proof {
            assert(rules@[i as int].deep_view() == rules@[i as int]@);
            assert(rest[0] == rdv[i as int]);
            assert(rest.drop_first() =~= rdv.skip(i as int + 1));
        }
        let d = emit_descriptor(entity, params, &rules[i]);
        let ghost dsnap = d;
        out.push(d);
        i = i + 1;
        proof {
            assert(out.deep_view() =~= old_dv.push(dsnap@));
            assert(old_dv.push(dsnap@) + emit_rules(edv, pdv, rdv.skip(i as int))
                =~= old_dv + (seq![descriptor_of(edv, pdv, rest[0])]
                    + emit_rules(edv, pdv, rdv.skip(i as int))));
        }
    }
    proof {
        assert(rdv.skip(i as int) =~= Seq::<RuleModel>::empty());
        assert(out.deep_view() + Seq::<DescriptorModel>::empty() =~= out.deep_view());
    }
}

} // verus!
