//! The wildcard resolver: each wildcard slot of a parsed pattern is bound
//! to the declaring entity's generic parameter at the same position, and the
//! positions that were wildcards are recorded.

use vstd::prelude::*;
use crate::error::{res_view, CompileError, ErrorModel};
use crate::pattern::{
    parse_pattern, spec_parse_pattern, PatternModel, Slot, SlotModel,
};
use crate::text::{
    append_chars, chars_to_string, join_comma, join_comma_vec, lemma_dv_chars, str_to_chars,
};

verus! {

/// A fully concrete pattern: its rendered text, with every wildcard
/// replaced by the generic parameter name at its position, and the
/// positions that were wildcards, in increasing order.
#[derive(Debug)]
pub struct ResolvedPattern {
    pub text: String,
    pub type_hole_positions: Vec<usize>,
}

/// The specification-level shape of a [`ResolvedPattern`].
pub struct ResolvedModel {
    pub text: Seq<char>,
    pub positions: Seq<usize>,
}

impl View for ResolvedPattern {
    type V = ResolvedModel;

    open spec fn view(&self) -> ResolvedModel {
        ResolvedModel { text: self.text@, positions: self.type_hole_positions@ }
    }
}

/// The slot names with wildcards bound by position, and the wildcard
/// positions; a wildcard with no generic parameter at its position stops
/// the scan with that position. `idx` is the absolute position of the
/// first slot of `slots`.
pub open spec fn resolve_slots(
    slots: Seq<SlotModel>,
    params: Seq<Seq<char>>,
    idx: int,
) -> Result<(Seq<Seq<char>>, Seq<usize>), int>
    decreases slots.len(),
{
    if slots.len() == 0 {
        Ok((Seq::empty(), Seq::empty()))
    } else {
        match slots[0] {
            SlotModel::Concrete(name) => match resolve_slots(slots.drop_first(), params, idx + 1) {
                Ok(np) => Ok((seq![name] + np.0, np.1)),
                Err(e) => Err(e),
            },
            SlotModel::Wildcard => {
                if idx < params.len() {
                    match resolve_slots(slots.drop_first(), params, idx + 1) {
                        Ok(np) => Ok((seq![params[idx]] + np.0, seq![idx as usize] + np.1)),
                        Err(e) => Err(e),
                    }
                } else {
                    Err(idx)
                }
            },
        }
    }
}

/// The recorded wildcard positions are exactly the slot positions where
/// the literal wildcard stood, in increasing order: a slot whose source
/// and target values merely coincide is concrete and is never recorded.
/// Each resolved name is the slot's own name, or, at a wildcard, the
/// generic parameter at that position.
#[verifier::rlimit(60)]
pub proof fn lemma_resolved_positions(slots: Seq<SlotModel>, params: Seq<Seq<char>>, idx: int)
    requires
        0 <= idx,
        idx + slots.len() <= usize::MAX,
    ensures
        resolve_slots(slots, params, idx) matches Ok(np) ==> {
            &&& np.0.len() == slots.len()
            &&& forall|j: int| 0 <= j < np.1.len() ==> idx <= #[trigger] np.1[j] < idx + slots.len()
                && slots[np.1[j] - idx] is Wildcard
            &&& forall|i: int| 0 <= i < slots.len() && slots[i] is Wildcard
                ==> np.1.contains((idx + i) as usize)
            &&& forall|j1: int, j2: int| 0 <= j1 < j2 < np.1.len() ==> np.1[j1] < np.1[j2]
            &&& forall|i: int| 0 <= i < slots.len() ==> np.0[i] == (match slots[i] {
                SlotModel::Concrete(name) => name,
                SlotModel::Wildcard => params[idx + i],
            })
        },
    decreases slots.len(),
{
    if slots.len() > 0 {
        lemma_resolved_positions(slots.drop_first(), params, idx + 1);
        assert(forall|i: int| 1 <= i < slots.len()
            ==> #[trigger] slots[i] == slots.drop_first()[i - 1]);
        match resolve_slots(slots, params, idx) {
            Ok(np) => {
                match resolve_slots(slots.drop_first(), params, idx + 1) {
                    Ok(rest) => {
                        match slots[0] {
                            SlotModel::Concrete(_) => {
                                assert(np.1 == rest.1);
                                assert(forall|i: int| 1 <= i < slots.len()
                                    ==> #[trigger] np.0[i] == rest.0[i - 1]);
                                assert forall|j: int| 0 <= j < np.1.len() implies idx <= #[trigger] np.1[j]
                                    < idx + slots.len() && slots[np.1[j] - idx] is Wildcard by {
                                    assert(np.1[j] == rest.1[j]);
                                    assert(slots.drop_first()[np.1[j] - (idx + 1)] is Wildcard);
                                    assert(slots[np.1[j] - idx]
                                        == slots.drop_first()[np.1[j] - idx - 1]);
                                }
                                assert forall|i: int|
                                    0 <= i < slots.len() && slots[i] is Wildcard
                                    implies np.1.contains((idx + i) as usize) by {
                                    assert(i >= 1);
                                    assert(rest.1.contains((idx + 1 + (i - 1)) as usize));
                                }
                            },
                            SlotModel::Wildcard => {
                                assert(np.1 == seq![idx as usize] + rest.1);
                                assert(np.1[0] == idx as usize);
                                assert(forall|j: int| 1 <= j < np.1.len()
                                    ==> #[trigger] np.1[j] == rest.1[j - 1]);
                                assert(forall|i: int| 1 <= i < slots.len()
                                    ==> #[trigger] np.0[i] == rest.0[i - 1]);
                                assert forall|j: int| 0 <= j < np.1.len() implies idx <= #[trigger] np.1[j]
                                    < idx + slots.len() && slots[np.1[j] - idx] is Wildcard by {
                                    if j == 0 {
                                        assert(np.1[0] == idx as usize);
                                        assert(np.1[0] - idx == 0);
                                    }
                                    if j > 0 {
                                        assert(np.1[j] == rest.1[j - 1]);
                                        assert(slots.drop_first()[np.1[j] - (idx + 1)] is Wildcard);
                                        assert(slots[np.1[j] - idx]
                                            == slots.drop_first()[np.1[j] - idx - 1]);
                                    }
                                }
                                assert forall|i: int|
                                    0 <= i < slots.len() && slots[i] is Wildcard
                                    implies np.1.contains((idx + i) as usize) by {
                                    if i == 0 {
                                        assert(np.1[0] == (idx + 0) as usize);
                                    } else {
                                        assert(rest.1.contains((idx + 1 + (i - 1)) as usize));
                                        let w = choose|j: int|
                                            0 <= j < rest.1.len()
                                                && rest.1[j] == (idx + i) as usize;
                                        assert(np.1[w + 1] == (idx + i) as usize);
                                    }
                                }
                            },
                        }
                    },
                    Err(_) => {},
                }
            },
            Err(_) => {},
        }
    }
}

/// `names_pre` and `pos_pre` prepended to the success side of `r`.
pub open spec fn prepend_resolved(
    names_pre: Seq<Seq<char>>,
    pos_pre: Seq<usize>,
    r: Result<(Seq<Seq<char>>, Seq<usize>), int>,
) -> Result<(Seq<Seq<char>>, Seq<usize>), int> {
    match r {
        Ok(np) => Ok((names_pre + np.0, pos_pre + np.1)),
        Err(e) => Err(e),
    }
}

/// The concrete pattern text of a base and its resolved slot names.
pub open spec fn render_pattern(base: Seq<char>, names: Seq<Seq<char>>) -> Seq<char> {
    if names.len() == 0 {
        base
    } else {
        base + seq!['<'] + join_comma(names) + seq!['>']
    }
}

/// What resolving the wildcards of a parsed pattern against the entity's
/// generic parameters yields; `original` is the pattern text reported on a
/// wildcard without a matching parameter.
pub open spec fn spec_resolve(
    p: PatternModel,
    params: Seq<Seq<char>>,
    original: Seq<char>,
) -> Result<ResolvedModel, ErrorModel> {
    match resolve_slots(p.slots, params, 0) {
        Ok(np) => Ok(ResolvedModel { text: render_pattern(p.base, np.0), positions: np.1 }),
        Err(k) => Err(ErrorModel::WildcardOutOfRange {
            pattern: original,
            position: k,
            available: params.len() as int,
        }),
    }
}

/// Parsing one concrete pattern string and resolving its wildcards, in one
/// step: what `parse_target_with_type_holes` yields.
pub open spec fn spec_parse_target(
    s: Seq<char>,
    params: Seq<Seq<char>>,
) -> Result<ResolvedModel, ErrorModel> {
    match spec_parse_pattern(s) {
        Ok(p) => spec_resolve(p, params, s),
        Err(e) => Err(e),
    }
}

/// Parses one concrete pattern string and binds each wildcard slot to the
/// generic parameter at its position, recording the wildcard positions, as
/// `spec_parse_target` describes.
#[verifier::loop_isolation(false)]
pub fn parse_target_with_type_holes(target: &str, params: &Vec<String>) -> (r: Result<
    ResolvedPattern,
    CompileError,
>)
    ensures
        res_view(r) == spec_parse_target(target@, params.deep_view()),
{
    let parsed = match parse_pattern(target) {
        Ok(p) => p,
        Err(e) => {
            return Err(e);
        },
    };
    let mut names: Vec<Vec<char>> = Vec::new();
    let mut positions: Vec<usize> = Vec::new();
    let mut k: usize = 0;
    let ghost slotsdv = parsed.slots.deep_view();
    let ghost pdv = params.deep_view();
    proof {
        assert(slotsdv.skip(0) =~= slotsdv);
        assert(names.deep_view() =~= Seq::<Seq<char>>::empty());
        assert(positions@ =~= Seq::<usize>::empty());
        match resolve_slots(slotsdv, pdv, 0) {
            Ok(np) => {
                assert(Seq::<Seq<char>>::empty() + np.0 =~= np.0);
                assert(Seq::<usize>::empty() + np.1 =~= np.1);
            },
            Err(_) => {},
        }
    }
    while k < parsed.slots.len()
        invariant
            k <= parsed.slots@.len(),
            slotsdv.len() == parsed.slots@.len(),
            prepend_resolved(
                names.deep_view(),
                positions@,
                resolve_slots(slotsdv.skip(k as int), pdv, k as int),
            ) == resolve_slots(slotsdv, pdv, 0),
        decreases parsed.slots.len() - k,
    {
        let ghost rest = slotsdv.skip(k as int);
        let ghost old_names = names.deep_view();
        let ghost old_positions = positions@;
        proof {
            assert(rest[0] == slotsdv[k as int]);
            assert(rest.drop_first() =~= slotsdv.skip(k as int + 1));
        }
        match &parsed.slots[k] {
            Slot::Concrete(name) => {
                let nm = str_to_chars(name.as_str());
                let ghost nmsnap = nm;
                names.push(nm);
                proof {
                    lemma_dv_chars(nmsnap);
                    assert(names.deep_view() =~= old_names.push(nmsnap@));
                    match resolve_slots(slotsdv.skip(k as int + 1), pdv, k as int + 1) {
                        Ok(np) => {
                            assert(old_names.push(nmsnap@) + np.0
                                =~= old_names + (seq![nmsnap@] + np.0));
                        },
                        Err(_) => {},
                    }
                }
            },
            Slot::Wildcard => {
                if k >= params.len() {
                    return Err(CompileError::WildcardOutOfRange {
                        pattern: target.to_owned(),
                        position: k,
                        available: params.len(),
                    });
                }
                let nm = str_to_chars(params[k].as_str());
                let ghost nmsnap = nm;
                names.push(nm);
                positions.push(k);
                proof {
                    lemma_dv_chars(nmsnap);
                    assert(nmsnap@ == pdv[k as int]);
                    assert(names.deep_view() =~= old_names.push(nmsnap@));
                    assert(positions@ =~= old_positions.push(k));
                    match resolve_slots(slotsdv.skip(k as int + 1), pdv, k as int + 1) {
                        Ok(np) => {
                            assert(old_names.push(nmsnap@) + np.0
                                =~= old_names + (seq![nmsnap@] + np.0));
                            assert(old_positions.push(k) + np.1
                                =~= old_positions + (seq![k] + np.1));
                        },
                        Err(_) => {},
                    }
                }
            },
        }
        k = k + 1;
    }
    proof {
        assert(slotsdv.skip(k as int) =~= Seq::<SlotModel>::empty());
        match resolve_slots(slotsdv, pdv, 0) {
            Ok(np) => {
                assert(names.deep_view() + Seq::<Seq<char>>::empty() =~= names.deep_view());
                assert(positions@ + Seq::<usize>::empty() =~= positions@);
            },
            Err(_) => {},
        }
    }
    let text = if names.len() == 0 {
        let base_chars = str_to_chars(parsed.base.as_str());
        chars_to_string(&base_chars)
    } else {
        let mut out = str_to_chars(parsed.base.as_str());
        out.push('<');
        let mid = join_comma_vec(&names);
        append_chars(&mut out, &mid);
        out.push('>');
        proof {
            assert(out@ =~= parsed.base@ + seq!['<'] + join_comma(names.deep_view())
                + seq!['>']);
        }
        chars_to_string(&out)
    };
    Ok(ResolvedPattern { text, type_hole_positions: positions })
}

} // verus!
