//! Rule expansion: one validated fragment becomes the full list of
//! concrete conversion rules, one per pair of a source alternative and a
//! target alternative, each with its wildcards resolved and the wildcard
//! positions of both sides checked for parity.

use vstd::prelude::*;
use crate::attr::{CoercionSpec, CoercionSpecModel};
use crate::error::{CompileError, ErrorModel};
use crate::expand::{spec_split_pipe, split_by_pipe_respecting_brackets};
use crate::mode::CoercionMode;
use crate::resolve::{parse_target_with_type_holes, spec_parse_target, ResolvedModel};
use crate::text::{eq_chars, str_to_chars, trim, trim_chars};

verus! {

/// One fully concrete conversion: source and target pattern text with all
/// wildcards bound, the mode, the positions that were wildcards (identical
/// on both sides), and whether the secondary view is requested.
#[derive(Debug)]
pub struct ExpandedRule {
    pub source: String,
    pub target: String,
    pub mode: CoercionMode,
    pub wildcard_positions: Vec<usize>,
    pub secondary_view: bool,
}

/// The specification-level shape of an [`ExpandedRule`].
pub struct RuleModel {
    pub source: Seq<char>,
    pub target: Seq<char>,
    pub mode: CoercionMode,
    pub wildcard_positions: Seq<usize>,
    pub secondary_view: bool,
}

impl View for ExpandedRule {
    type V = RuleModel;

    open spec fn view(&self) -> RuleModel {
        RuleModel {
            source: self.source@,
            target: self.target@,
            mode: self.mode,
            wildcard_positions: self.wildcard_positions@,
            secondary_view: self.secondary_view,
        }
    }
}

impl DeepView for ExpandedRule {
    type V = RuleModel;

    open spec fn deep_view(&self) -> RuleModel {
        self.view()
    }
}

/// Both rule lists in order, or the first fault of either.
pub open spec fn seq_results(
    a: Result<Seq<RuleModel>, ErrorModel>,
    b: Result<Seq<RuleModel>, ErrorModel>,
) -> Result<Seq<RuleModel>, ErrorModel> {
    match a {
        Err(e) => Err(e),
        Ok(x) => match b {
            Err(e) => Err(e),
            Ok(y) => Ok(x + y),
        },
    }
}

/// `pre` prepended to the success side of `r`.
pub open spec fn prepend_rules(
    pre: Seq<RuleModel>,
    r: Result<Seq<RuleModel>, ErrorModel>,
) -> Result<Seq<RuleModel>, ErrorModel> {
    match r {
        Ok(s) => Ok(pre + s),
        Err(e) => Err(e),
    }
}

/// The rules of one resolved source alternative against each target
/// alternative in turn: each target is parsed and resolved, its wildcard
/// positions must equal the source's, a pair whose resolved texts are
/// identical after trimming is rejected (such a rule has no effect and
/// signals a declaration mistake), and one rule per remaining pair is
/// produced.
pub open spec fn rules_for_source(
    fr: ResolvedModel,
    fa: Seq<char>,
    tos: Seq<Seq<char>>,
    params: Seq<Seq<char>>,
    mode: CoercionMode,
    secondary: bool,
) -> Result<Seq<RuleModel>, ErrorModel>
    decreases tos.len(),
{
    if tos.len() == 0 {
        Ok(Seq::empty())
    } else {
        match spec_parse_target(tos[0], params) {
            Err(e) => Err(e),
            Ok(tr) => {
                if fr.positions != tr.positions {
                    Err(ErrorModel::ParityMismatch {
                        source: fa,
                        target: tos[0],
                        source_positions: fr.positions,
                        target_positions: tr.positions,
                    })
                } else if trim(fr.text) == trim(tr.text) {
                    Err(ErrorModel::IdentityCoercion { pattern: fr.text })
                } else {
                    match rules_for_source(fr, fa, tos.drop_first(), params, mode, secondary) {
                        Err(e) => Err(e),
                        Ok(rest) => Ok(
                            seq![
                                RuleModel {
                                    source: fr.text,
                                    target: tr.text,
                                    mode: mode,
                                    wildcard_positions: fr.positions,
                                    secondary_view: secondary,
                                },
                            ] + rest,
                        ),
                    }
                }
            },
        }
    }
}

/// The rules of each source alternative in turn against all target
/// alternatives.
pub open spec fn rules_for_sources(
    fas: Seq<Seq<char>>,
    tos: Seq<Seq<char>>,
    params: Seq<Seq<char>>,
    mode: CoercionMode,
    secondary: bool,
) -> Result<Seq<RuleModel>, ErrorModel>
    decreases fas.len(),
{
    if fas.len() == 0 {
        Ok(Seq::empty())
    } else {
        match spec_parse_target(fas[0], params) {
            Err(e) => Err(e),
            Ok(fr) => seq_results(
                rules_for_source(fr, fas[0], tos, params, mode, secondary),
                rules_for_sources(fas.drop_first(), tos, params, mode, secondary),
            ),
        }
    }
}

/// Every source pattern of a fragment expanded on alternation, flattened
/// in order.
pub open spec fn all_from_alts(fps: Seq<Seq<char>>) -> Seq<Seq<char>>
    decreases fps.len(),
{
    if fps.len() == 0 {
        Seq::empty()
    } else {
        spec_split_pipe(fps[0]) + all_from_alts(fps.drop_first())
    }
}

/// What expanding one validated fragment yields: the Cartesian product of
/// the fragment's source alternatives and target alternatives, one rule
/// per pair, in source-major order.
pub open spec fn spec_expand_spec(
    c: CoercionSpecModel,
    params: Seq<Seq<char>>,
) -> Result<Seq<RuleModel>, ErrorModel> {
    rules_for_sources(
        all_from_alts(c.from_patterns),
        spec_split_pipe(c.to_pattern),
        params,
        c.kind,
        c.generate_asref,
    )
}

proof fn lemma_rules_for_source_props(
    fr: ResolvedModel,
    fa: Seq<char>,
    tos: Seq<Seq<char>>,
    params: Seq<Seq<char>>,
    mode: CoercionMode,
    secondary: bool,
)
    ensures
        rules_for_source(fr, fa, tos, params, mode, secondary) matches Ok(block) ==> {
            &&& block.len() == tos.len()
            &&& forall|ti: int| 0 <= ti < tos.len() ==> {
                &&& spec_parse_target(tos[ti], params) matches Ok(tr)
                &&& #[trigger] block[ti] == RuleModel {
                    source: fr.text,
                    target: (match spec_parse_target(tos[ti], params) {
                        Ok(tr) => tr.text,
                        Err(_) => Seq::empty(),
                    }),
                    mode: mode,
                    wildcard_positions: fr.positions,
                    secondary_view: secondary,
                }
                &&& (match spec_parse_target(tos[ti], params) {
                    Ok(tr) => tr.positions,
                    Err(_) => Seq::empty(),
                }) == fr.positions
                &&& trim((match spec_parse_target(tos[ti], params) {
                    Ok(tr) => tr.text,
                    Err(_) => Seq::empty(),
                })) != trim(fr.text)
            }
        },
    decreases tos.len(),
{
    if tos.len() > 0 {
        match spec_parse_target(tos[0], params) {
            Ok(tr) => {
                if fr.positions == tr.positions && trim(fr.text) != trim(tr.text) {
                    lemma_rules_for_source_props(fr, fa, tos.drop_first(), params, mode, secondary);
                    match rules_for_source(fr, fa, tos, params, mode, secondary) {
                        Ok(block) => {
                            assert(forall|ti: int| 1 <= ti < tos.len()
                                ==> tos[ti] == tos.drop_first()[ti - 1]);
                            match rules_for_source(
                                fr,
                                fa,
                                tos.drop_first(),
                                params,
                                mode,
                                secondary,
                            ) {
                                Ok(rest) => {
                                    assert(forall|ti: int| 1 <= ti < block.len()
                                        ==> #[trigger] block[ti] == rest[ti - 1]);
                                },
                                Err(_) => {},
                            }
                        },
                        Err(_) => {},
                    }
                }
            },
            Err(_) => {},
        }
    }
}

proof fn lemma_rules_for_sources_len(
    fas: Seq<Seq<char>>,
    tos: Seq<Seq<char>>,
    params: Seq<Seq<char>>,
    mode: CoercionMode,
    secondary: bool,
)
    ensures
        rules_for_sources(fas, tos, params, mode, secondary) matches Ok(rules)
            ==> rules.len() == fas.len() * tos.len(),
    decreases fas.len(),
{
    if fas.len() > 0 {
        match spec_parse_target(fas[0], params) {
            Ok(fr) => {
                lemma_rules_for_source_props(fr, fas[0], tos, params, mode, secondary);
                lemma_rules_for_sources_len(fas.drop_first(), tos, params, mode, secondary);
                assert(fas.len() * tos.len() == tos.len() + (fas.len() - 1) * tos.len())
                    by (nonlinear_arith);
            },
            Err(_) => {},
        }
    }
}

proof fn lemma_rules_for_sources_index(
    fas: Seq<Seq<char>>,
    tos: Seq<Seq<char>>,
    params: Seq<Seq<char>>,
    mode: CoercionMode,
    secondary: bool,
    fi: int,
    ti: int,
)
    requires
        rules_for_sources(fas, tos, params, mode, secondary) is Ok,
        0 <= fi < fas.len(),
        0 <= ti < tos.len(),
    ensures
        rules_for_sources(fas, tos, params, mode, secondary) matches Ok(rules) ==> {
            &&& spec_parse_target(fas[fi], params) is Ok
            &&& spec_parse_target(tos[ti], params) is Ok
            &&& (match (spec_parse_target(fas[fi], params), spec_parse_target(tos[ti], params)) {
                (Ok(fr), Ok(tr)) => {
                    &&& tr.positions == fr.positions
                    &&& trim(tr.text) != trim(fr.text)
                    &&& 0 <= fi * tos.len() + ti < rules.len()
                    &&& rules[fi * tos.len() + ti] == RuleModel {
                        source: fr.text,
                        target: tr.text,
                        mode: mode,
                        wildcard_positions: fr.positions,
                        secondary_view: secondary,
                    }
                },
                _ => false,
            })
        },
    decreases fas.len(),
{
    lemma_rules_for_sources_len(fas, tos, params, mode, secondary);
    match spec_parse_target(fas[0], params) {
        Ok(fr) => {
            lemma_rules_for_source_props(fr, fas[0], tos, params, mode, secondary);
            match rules_for_source(fr, fas[0], tos, params, mode, secondary) {
                Ok(block) => {
                    match rules_for_sources(fas.drop_first(), tos, params, mode, secondary) {
                        Ok(restrules) => {
                            lemma_rules_for_sources_len(
                                fas.drop_first(),
                                tos,
                                params,
                                mode,
                                secondary,
                            );
                            if fi == 0 {
                                assert(fi * tos.len() + ti == ti);
                            } else {
                                lemma_rules_for_sources_index(
                                    fas.drop_first(),
                                    tos,
                                    params,
                                    mode,
                                    secondary,
                                    fi - 1,
                                    ti,
                                );
                                assert(fas.drop_first()[fi - 1] == fas[fi]);
                                assert(fi * tos.len() + ti == tos.len() + ((fi - 1) * tos.len()
                                    + ti)) by (nonlinear_arith);
                                assert(0 <= (fi - 1) * tos.len() + ti < restrules.len());
                            }
                        },
                        Err(_) => {},
                    }
                },
                Err(_) => {},
            }
        },
        Err(_) => {},
    }
}

/// Cartesian completeness and wildcard parity. A fragment whose source
/// side denotes N concrete alternatives and whose target side denotes M
/// yields exactly N×M rules. The rule of the pair (fi, ti) stands at
/// index fi·M + ti: it converts the fi-th source alternative, resolved,
/// to the ti-th target alternative, resolved, carries the fragment's mode
/// and secondary-view flag, and records wildcard positions that the
/// source and the target side share — a rule with differing position
/// sets is never produced, and neither is a rule whose resolved source
/// and target are identical after trimming.
pub proof fn lemma_expand_cartesian(
    c: CoercionSpecModel,
    params: Seq<Seq<char>>,
    fi: int,
    ti: int,
)
    requires
        spec_expand_spec(c, params) is Ok,
        0 <= fi < all_from_alts(c.from_patterns).len(),
        0 <= ti < spec_split_pipe(c.to_pattern).len(),
    ensures
        spec_expand_spec(c, params) matches Ok(rules) ==> {
            let fas = all_from_alts(c.from_patterns);
            let tos = spec_split_pipe(c.to_pattern);
            &&& rules.len() == fas.len() * tos.len()
            &&& spec_parse_target(fas[fi], params) is Ok
            &&& spec_parse_target(tos[ti], params) is Ok
            &&& (match (spec_parse_target(fas[fi], params), spec_parse_target(tos[ti], params)) {
                (Ok(fr), Ok(tr)) => {
                    &&& tr.positions == fr.positions
                    &&& trim(tr.text) != trim(fr.text)
                    &&& 0 <= fi * tos.len() + ti < rules.len()
                    &&& rules[fi * tos.len() + ti] == RuleModel {
                        source: fr.text,
                        target: tr.text,
                        mode: c.kind,
                        wildcard_positions: fr.positions,
                        secondary_view: c.generate_asref,
                    }
                },
                _ => false,
            })
        },
{
    let fas = all_from_alts(c.from_patterns);
    let tos = spec_split_pipe(c.to_pattern);
    lemma_rules_for_sources_len(fas, tos, params, c.kind, c.generate_asref);
    lemma_rules_for_sources_index(fas, tos, params, c.kind, c.generate_asref, fi, ti);
}

/// A copy of a list of positions.
pub fn copy_usizes(v: &Vec<usize>) -> (r: Vec<usize>)
    ensures
        r@ == v@,
{
    let mut r: Vec<usize> = Vec::new();
    let mut i: usize = 0;
    while i < v.len()
        invariant
            i <= v@.len(),
            r@ == v@.take(i as int),
        decreases v.len() - i,
    {
        r.push(v[i]);
        i = i + 1;
        proof {
            assert(r@ =~= v@.take(i as int));
        }
    }
    proof {
        assert(r@ =~= v@);
    }
    r
}

pub fn eq_usizes(a: &Vec<usize>, b: &Vec<usize>) -> (r: bool)
    ensures
        r == (a@ == b@),
{
    if a.len() != b.len() {
        return false;
    }
    let mut i: usize = 0;
    while i < a.len()
        invariant
            i <= a.len(),
            a@.len() == b@.len(),
            forall|j: int| 0 <= j < i ==> a@[j] == b@[j],
        decreases a.len() - i,
    {
        if a[i] != b[i] {
            return false;
        }
        i = i + 1;
    }
    proof {
        assert(a@ =~= b@);
    }
    true
}

/// Expands one validated fragment into its concrete rules, as
/// `spec_expand_spec` describes: each source alternative is paired with
/// each target alternative, every pair's wildcard positions must match,
/// and no pair may resolve to one and the same pattern text.
#[verifier::loop_isolation(false)]
#[verifier::rlimit(60)]
pub fn expand_coercion_spec(c: &CoercionSpec, params: &Vec<String>) -> (r: Result<
    Vec<ExpandedRule>,
    CompileError,
>)
    ensures
        match r {
            Ok(v) => spec_expand_spec(c@, params.deep_view()) == Ok::<_, ErrorModel>(
                v.deep_view(),
            ),
            Err(e) => spec_expand_spec(c@, params.deep_view()) == Err::<Seq<RuleModel>, _>(e@),
        },
{
    let ghost pdv = params.deep_view();
    let to_alts = split_by_pipe_respecting_brackets(c.to_pattern.as_str());
    let ghost todv = to_alts.deep_view();
    proof {
        assert(todv == spec_split_pipe(c@.to_pattern));
    }
    // Flatten the source patterns into their alternatives, in order.
    let mut from_alts: Vec<String> = Vec::new();
    let mut i: usize = 0;
    let ghost fpsdv = c.from_patterns.deep_view();
    proof {
        assert(fpsdv.skip(0) =~= fpsdv);
        assert(from_alts.deep_view() =~= Seq::<Seq<char>>::empty());
        assert(Seq::<Seq<char>>::empty() + all_from_alts(fpsdv) =~= all_from_alts(fpsdv));
    }
    while i < c.from_patterns.len()
        invariant
            i <= c.from_patterns@.len(),
            fpsdv.len() == c.from_patterns@.len(),
            from_alts.deep_view() + all_from_alts(fpsdv.skip(i as int)) == all_from_alts(fpsdv),
        decreases c.from_patterns.len() - i,
    {
        let ghost rest = fpsdv.skip(i as int);
        let ghost old_dv = from_alts.deep_view();
        proof {
            assert(c.from_patterns@[i as int].deep_view() == c.from_patterns@[i as int]@);
            assert(rest[0] == fpsdv[i as int]);
            assert(rest.drop_first() =~= fpsdv.skip(i as int + 1));
        }
        let alts = split_by_pipe_respecting_brackets(c.from_patterns[i].as_str());
        let mut j: usize = 0;
        while j < alts.len()
            invariant
                j <= alts@.len(),
                from_alts.deep_view() == old_dv + alts.deep_view().take(j as int),
            decreases alts.len() - j,
        {
            let ghost mid = from_alts.deep_view();
            let a = alts[j].clone();
            let ghost asnap = a;
            from_alts.push(a);
            j = j + 1;
            proof {
                assert(asnap.deep_view() == asnap@);
                assert(from_alts.deep_view() =~= mid.push(asnap@));
                assert(asnap@ == alts.deep_view()[j - 1]);
                assert(old_dv + alts.deep_view().take(j as int) =~= mid.push(asnap@));
            }
        }
        i = i + 1;
        proof {
            assert(alts.deep_view().take(alts@.len() as int) =~= alts.deep_view());
            assert(old_dv + spec_split_pipe(rest[0]) + all_from_alts(fpsdv.skip(i as int))
                =~= old_dv + (spec_split_pipe(rest[0]) + all_from_alts(fpsdv.skip(i as int))));
        }
    }
    proof {
        assert(fpsdv.skip(i as int) =~= Seq::<Seq<char>>::empty());
        assert(from_alts.deep_view() + Seq::<Seq<char>>::empty() =~= from_alts.deep_view());
    }
    let ghost fadv = from_alts.deep_view();
    let mut rules: Vec<ExpandedRule> = Vec::new();
    let mut fi: usize = 0;
    proof {
        assert(fadv.skip(0) =~= fadv);
        assert(rules.deep_view() =~= Seq::<RuleModel>::empty());
        match rules_for_sources(fadv, todv, pdv, c@.kind, c@.generate_asref) {
            Ok(rs) => {
                assert(Seq::<RuleModel>::empty() + rs =~= rs);
            },
            Err(_) => {},
        }
    }
    while fi < from_alts.len()
        invariant
            fi <= from_alts@.len(),
            fadv.len() == from_alts@.len(),
            prepend_rules(
                rules.deep_view(),
                rules_for_sources(fadv.skip(fi as int), todv, pdv, c@.kind, c@.generate_asref),
            ) == spec_expand_spec(c@, pdv),
        decreases from_alts.len() - fi,
    {
        let ghost frest = fadv.skip(fi as int);
        proof {
            assert(from_alts@[fi as int].deep_view() == from_alts@[fi as int]@);
            assert(frest[0] == fadv[fi as int]);
            assert(frest.drop_first() =~= fadv.skip(fi as int + 1));
        }
        let fr = match parse_target_with_type_holes(from_alts[fi].as_str(), params) {
            Ok(fr) => fr,
            Err(e) => {
                return Err(e);
            },
        };
        let ghost frm = fr@;
        let fr_chars = str_to_chars(fr.text.as_str());
        let fr_trim = trim_chars(&fr_chars);
        let mut ti: usize = 0;
        proof {
            assert(todv.skip(0) =~= todv);
        }
        while ti < to_alts.len()
            invariant
                ti <= to_alts@.len(),
                todv.len() == to_alts@.len(),
                fi < from_alts@.len(),
                fadv.len() == from_alts@.len(),
                fr@ == frm,
                spec_parse_target(frest[0], pdv) == Ok::<_, ErrorModel>(frm),
                prepend_rules(
                    rules.deep_view(),
                    seq_results(
                        rules_for_source(
                            frm,
                            frest[0],
                            todv.skip(ti as int),
                            pdv,
                            c@.kind,
                            c@.generate_asref,
                        ),
                        rules_for_sources(
                            fadv.skip(fi as int + 1),
                            todv,
                            pdv,
                            c@.kind,
                            c@.generate_asref,
                        ),
                    ),
                ) == spec_expand_spec(c@, pdv),
            decreases to_alts.len() - ti,
        {
            let ghost trest = todv.skip(ti as int);
            let ghost old_rules = rules.deep_view();
            proof {
                assert(to_alts@[ti as int].deep_view() == to_alts@[ti as int]@);
                assert(trest[0] == todv[ti as int]);
                assert(trest.drop_first() =~= todv.skip(ti as int + 1));
            }
            let tr = match parse_target_with_type_holes(to_alts[ti].as_str(), params) {
                Ok(tr) => tr,
                Err(e) => {
                    return Err(e);
                },
            };
            if !eq_usizes(&fr.type_hole_positions, &tr.type_hole_positions) {
                return Err(CompileError::ParityMismatch {
                    source: from_alts[fi].clone(),
                    target: to_alts[ti].clone(),
                    source_positions: copy_usizes(&fr.type_hole_positions),
                    target_positions: copy_usizes(&tr.type_hole_positions),
                });
            }
            let tr_chars = str_to_chars(tr.text.as_str());
            let tr_trim = trim_chars(&tr_chars);
            if eq_chars(&fr_trim, &tr_trim) {
                return Err(CompileError::IdentityCoercion { pattern: fr.text.clone() });
            }
            let rule = ExpandedRule {
                source: fr.text.clone(),
                target: tr.text,
                mode: c.kind,
                wildcard_positions: copy_usizes(&fr.type_hole_positions),
                secondary_view: c.generate_asref,
            };
            let ghost rulem = rule@;
            rules.push(rule);
            proof {
                assert(rules.deep_view() =~= old_rules.push(rulem));
                match rules_for_source(
                    frm,
                    frest[0],
                    todv.skip(ti as int + 1),
                    pdv,
                    c@.kind,
                    c@.generate_asref,
                ) {
                    Ok(block_rest) => {
                        assert(old_rules.push(rulem) + block_rest
                            =~= old_rules + (seq![rulem] + block_rest));
                        match rules_for_sources(
                            fadv.skip(fi as int + 1),
                            todv,
                            pdv,
                            c@.kind,
                            c@.generate_asref,
                        ) {
                            Ok(outer_rest) => {
                                assert(old_rules.push(rulem) + (block_rest + outer_rest)
                                    =~= old_rules + ((seq![rulem] + block_rest) + outer_rest));
                            },
                            Err(_) => {},
                        }
                    },
                    Err(_) => {},
                }
            }
            ti = ti + 1;
        }
        proof {
            assert(todv.skip(ti as int) =~= Seq::<Seq<char>>::empty());
            match rules_for_sources(fadv.skip(fi as int + 1), todv, pdv, c@.kind, c@.generate_asref) {
                Ok(outer_rest) => {
                    assert(Seq::<RuleModel>::empty() + outer_rest =~= outer_rest);
                },
                Err(_) => {},
            }
        }
        fi = fi + 1;
    }
    proof {
        assert(fadv.skip(fi as int) =~= Seq::<Seq<char>>::empty());
        assert(rules.deep_view() + Seq::<RuleModel>::empty() =~= rules.deep_view());
    }
    Ok(rules)
}

} // verus!
