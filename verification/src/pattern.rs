//! The pattern parser: one concrete (non-alternated) pattern string becomes
//! a base identifier plus an ordered list of parameter slots, each either a
//! concrete name or a wildcard.

use vstd::prelude::*;
use crate::error::{res_view, CompileError, ErrorModel};
use crate::text::{
    chars_to_string, depth_delta, find_char, find_char_vec, is_space,
    is_space_exec, lemma_dv_chars, split_top, split_top_vec, str_to_chars, subvec, trim,
    trim_chars, trim_start,
};

verus! {

/// One parameter position of a pattern: a concrete name, or the wildcard
/// `_`, which preserves whatever parameter the source has at that position.
#[derive(Debug)]
pub enum Slot {
    Concrete(String),
    Wildcard,
}

/// The specification-level shape of a [`Slot`].
pub enum SlotModel {
    Concrete(Seq<char>),
    Wildcard,
}

impl View for Slot {
    type V = SlotModel;

    open spec fn view(&self) -> SlotModel {
        match self {
            Slot::Concrete(name) => SlotModel::Concrete(name@),
            Slot::Wildcard => SlotModel::Wildcard,
        }
    }
}

impl DeepView for Slot {
    type V = SlotModel;

    open spec fn deep_view(&self) -> SlotModel {
        self.view()
    }
}

/// A parsed pattern: the base identifier and its parameter slots, in order.
/// A pattern without brackets has no slots.
#[derive(Debug)]
pub struct ParsedPattern {
    pub base: String,
    pub slots: Vec<Slot>,
}

/// The specification-level shape of a [`ParsedPattern`].
pub struct PatternModel {
    pub base: Seq<char>,
    pub slots: Seq<SlotModel>,
}

impl View for ParsedPattern {
    type V = PatternModel;

    open spec fn view(&self) -> PatternModel {
        PatternModel { base: self.base@, slots: self.slots.deep_view() }
    }
}

/// The slot a trimmed, non-empty segment denotes: the wildcard for a bare
/// underscore, otherwise the concrete name.
pub open spec fn slot_of(t: Seq<char>) -> SlotModel {
    if t == seq!['_'] {
        SlotModel::Wildcard
    } else {
        SlotModel::Concrete(t)
    }
}

/// The slots of the comma-separated segments, each trimmed; an empty
/// segment stops the scan with its index. `idx` is the index of the first
/// segment of `segs` in the whole slot list.
pub open spec fn slots_of(segs: Seq<Seq<char>>, idx: int) -> Result<Seq<SlotModel>, int>
    decreases segs.len(),
{
    if segs.len() == 0 {
        Ok(Seq::empty())
    } else {
        let t = trim(segs[0]);
        if t.len() == 0 {
            Err(idx)
        } else {
            match slots_of(segs.drop_first(), idx + 1) {
                Ok(rest) => Ok(seq![slot_of(t)] + rest),
                Err(e) => Err(e),
            }
        }
    }
}

/// `pre` prepended to the success side of `r`.
pub open spec fn prepend_slots(
    pre: Seq<SlotModel>,
    r: Result<Seq<SlotModel>, int>,
) -> Result<Seq<SlotModel>, int> {
    match r {
        Ok(s) => Ok(pre + s),
        Err(e) => Err(e),
    }
}

/// Index in `s` of the `>` that closes `depth` levels of brackets still
/// open, or -1 if the text ends first.
pub open spec fn find_matching(s: Seq<char>, depth: int) -> int
    decreases s.len(),
{
    if s.len() == 0 {
        -1
    } else if s[0] == '>' && depth == 1 {
        0
    } else {
        let r = find_matching(s.drop_first(), depth + depth_delta(s[0]));
        if r == -1 {
            -1
        } else {
            r + 1
        }
    }
}

/// What parsing one concrete pattern string yields: the base identifier is
/// the trimmed text before the first `<`; the bracket interior is split on
/// top-level commas into slots. A pattern without brackets has zero slots.
/// Faults: the bracket group never closes, a slot is blank, or
/// non-whitespace text follows the closing bracket.
pub open spec fn spec_parse_pattern(s: Seq<char>) -> Result<PatternModel, ErrorModel> {
    let lt = find_char(s, '<');
    if lt == -1 {
        Ok(PatternModel { base: trim(s), slots: Seq::empty() })
    } else {
        let m = find_matching(s.skip(lt + 1), 1);
        if m == -1 {
            Err(ErrorModel::UnbalancedBrackets { pattern: s, position: s.len() as int })
        } else {
            let close = lt + 1 + m;
            let tail = s.skip(close + 1);
            if trim_start(tail).len() > 0 {
                Err(ErrorModel::TrailingContent {
                    pattern: s,
                    position: close + 1 + (tail.len() - trim_start(tail).len()),
                })
            } else {
                match slots_of(split_top(s.subrange(lt + 1, close), ','), 0) {
                    Ok(slots) => Ok(PatternModel { base: trim(s.take(lt)), slots }),
                    Err(k) => Err(ErrorModel::EmptySegment { pattern: s, segment: k }),
                }
            }
        }
    }
}

proof fn lemma_find_matching_range(s: Seq<char>, d: int)
    ensures
        find_matching(s, d) == -1 || 0 <= find_matching(s, d) < s.len(),
    decreases s.len(),
{
    if s.len() > 0 && !(s[0] == '>' && d == 1) {
        lemma_find_matching_range(s.drop_first(), d + depth_delta(s[0]));
    }
}

/// Index in `v` of the `>` closing one still-open bracket, as
/// `find_matching` gives it.
#[verifier::loop_isolation(false)]
fn find_matching_vec(v: &Vec<char>) -> (r: Option<usize>)
    ensures
        match r {
            Some(i) => i < v@.len() && find_matching(v@, 1) == i as int,
            None => find_matching(v@, 1) == -1,
        },
{
    let mut depth: i128 = 1;
    let mut i: usize = 0;
    proof {
        assert(v@.skip(0) =~= v@);
    }
    while i < v.len()
        invariant
            i <= v.len(),
            1 - (i as int) <= depth <= 1 + i as int,
            find_matching(v@, 1) == {
                let r = find_matching(v@.skip(i as int), depth as int);
                if r == -1 {
                    -1
                } else {
                    i + r
                }
            },
        decreases v.len() - i,
    {
        let ghost old_i = i as int;
        let ghost old_depth = depth as int;
        proof {
            assert(v@.skip(old_i)[0] == v@[old_i]);
            assert(v@.skip(old_i).drop_first() =~= v@.skip(old_i + 1));
        }
        let c = v[i];
        if c == '>' && depth == 1 {
            return Some(i);
        }
        if c == '<' {
            depth = depth + 1;
        } else if c == '>' {
            depth = depth - 1;
        }
        i = i + 1;
        proof {
            let s0 = v@.skip(old_i);
            assert(depth as int == old_depth + depth_delta(s0[0]));
            let r1 = find_matching(v@.skip(old_i + 1), old_depth + depth_delta(s0[0]));
            lemma_find_matching_range(v@.skip(old_i + 1), old_depth + depth_delta(s0[0]));
            assert(find_matching(s0, old_depth) == if r1 == -1 { -1 } else { r1 + 1 });
            assert(find_matching(v@, 1) == if r1 == -1 { -1 } else { old_i + 1 + r1 });
        }
    }
    proof {
        assert(v@.skip(i as int) =~= Seq::<char>::empty());
    }
    None
}

/// Parses one concrete pattern string, as `spec_parse_pattern` describes.
#[verifier::loop_isolation(false)]
pub fn parse_pattern(text: &str) -> (r: Result<ParsedPattern, CompileError>)
    ensures
        res_view(r) == spec_parse_pattern(text@),
{
    let v = str_to_chars(text);
    let lt = match find_char_vec(&v, '<') {
        None => {
            let t = trim_chars(&v);
            let base = chars_to_string(&t);
            let slots: Vec<Slot> = Vec::new();
            proof {
                assert(slots.deep_view() =~= Seq::<SlotModel>::empty());
            }
            return Ok(ParsedPattern { base, slots });
        },
        Some(lt) => lt,
    };
    let after = subvec(&v, lt + 1, v.len());
    let m = match find_matching_vec(&after) {
        None => {
            return Err(CompileError::UnbalancedBrackets {
                pattern: text.to_owned(),
                position: v.len(),
            });
        },
        Some(m) => m,
    };
    let close = lt + 1 + m;
    proof {
        assert(after@ =~= v@.skip(lt as int + 1));
    }
    // Scan for non-whitespace after the closing bracket.
    let mut t: usize = close + 1;
    while t < v.len() && is_space_exec(v[t])
        invariant
            close + 1 <= t <= v@.len(),
            forall|j: int| close + 1 <= j < t ==> is_space(v@[j]),
        decreases v.len() - t,
    {
        t = t + 1;
    }
    let ghost tail = v@.skip(close as int + 1);
    proof {
        assert(forall|j: int| 0 <= j < t - (close + 1) ==> is_space(tail[j]));
        crate::text::lemma_trim_start_skip(tail, t as int - (close + 1));
    }
    if t < v.len() {
        return Err(CompileError::TrailingContent { pattern: text.to_owned(), position: t });
    }
    let interior = subvec(&v, lt + 1, close);
    let segs = split_top_vec(&interior, ',');
    let mut slots: Vec<Slot> = Vec::new();
    let mut k: usize = 0;
    let ghost segsdv = segs.deep_view();
    proof {
        assert(segsdv.skip(0) =~= segsdv);
        assert(slots.deep_view() =~= Seq::<SlotModel>::empty());
        assert(prepend_slots(slots.deep_view(), slots_of(segsdv, 0)) == slots_of(segsdv, 0));
    }
    while k < segs.len()
        invariant
            k <= segs.len(),
            segsdv == segs.deep_view(),
            segsdv.len() == segs@.len(),
            prepend_slots(slots.deep_view(), slots_of(segsdv.skip(k as int), k as int))
                == slots_of(segsdv, 0),
        decreases segs.len() - k,
    {
        let ghost rest = segsdv.skip(k as int);
        proof {
            lemma_dv_chars(segs@[k as int]);
            assert(rest[0] == segsdv[k as int]);
            assert(rest.drop_first() =~= segsdv.skip(k as int + 1));
        }
        let tseg = trim_chars(&segs[k]);
        if tseg.len() == 0 {
            return Err(CompileError::EmptySegment { pattern: text.to_owned(), segment: k });
        }
        let slot = if tseg.len() == 1 && tseg[0] == '_' {
            proof {
                assert(tseg@ =~= seq!['_']);
            }
            Slot::Wildcard
        } else {
            proof {
                assert(tseg@ != seq!['_']);
            }
            Slot::Concrete(chars_to_string(&tseg))
        };
        let ghost old_slots = slots.deep_view();
        let ghost slot_model = slot@;
        slots.push(slot);
        proof {
            assert(slots.deep_view() =~= old_slots.push(slot_model));
            assert(slot_model == slot_of(trim(rest[0])));
            match slots_of(segsdv.skip(k as int + 1), k as int + 1) {
                Ok(rest_slots) => {
                    assert(old_slots.push(slot_model) + rest_slots
                        =~= old_slots + (seq![slot_model] + rest_slots));
                },
                Err(_) => {},
            }
        }
        k = k + 1;
    }
    proof {
        assert(segsdv.skip(k as int) =~= Seq::<Seq<char>>::empty());
        assert(slots.deep_view() + Seq::<SlotModel>::empty() =~= slots.deep_view());
    }
    let base_chars = subvec(&v, 0, lt);
    let base_trimmed = trim_chars(&base_chars);
    let base = chars_to_string(&base_trimmed);
    proof {
        assert(base_chars@ =~= v@.take(lt as int));
    }
    Ok(ParsedPattern { base, slots })
}

} // verus!
