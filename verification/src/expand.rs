//! The alternation expander: one pattern string that may contain `|` at the
//! whole-pattern level and/or inside individual parameter slots becomes the
//! list of all concrete pattern strings it denotes.
//!
//! Precedence is a documented rule, not a parsing accident: the string is
//! first split on `|` at bracket depth zero, and only a piece that still
//! carries `|` inside its brackets is then expanded slot by slot into the
//! Cartesian product of its slot alternatives.

use vstd::prelude::*;
use crate::text::{
    chars_to_string, contains_char, contains_char_vec, copy_chars, find_char, find_char_vec,
    find_last_char, find_last_char_vec, join_comma, join_comma_vec, lemma_dv_chars, split_top,
    split_top_vec, str_to_chars, subvec, trim, trim_chars,
};

verus! {

/// Every piece trimmed, order kept.
pub open spec fn trim_all(ps: Seq<Seq<char>>) -> Seq<Seq<char>>
    decreases ps.len(),
{
    if ps.len() == 0 {
        Seq::empty()
    } else {
        seq![trim(ps[0])] + trim_all(ps.drop_first())
    }
}

/// The pieces that are not empty, order kept.
pub open spec fn drop_blank(ps: Seq<Seq<char>>) -> Seq<Seq<char>>
    decreases ps.len(),
{
    if ps.len() == 0 {
        Seq::empty()
    } else if ps[0].len() == 0 {
        drop_blank(ps.drop_first())
    } else {
        seq![ps[0]] + drop_blank(ps.drop_first())
    }
}

/// The whole-pattern alternatives of `s`: the pieces between top-level `|`,
/// trimmed, blank pieces dropped.
pub open spec fn pipe_pieces(s: Seq<char>) -> Seq<Seq<char>> {
    drop_blank(trim_all(split_top(s, '|')))
}

/// Per parameter slot, the `|`-separated alternatives of that slot, each
/// trimmed. A slot without `|` has exactly one alternative.
pub open spec fn alt_sets(params: Seq<Seq<char>>) -> Seq<Seq<Seq<char>>>
    decreases params.len(),
{
    if params.len() == 0 {
        Seq::empty()
    } else {
        seq![trim_all(split_top(params[0], '|'))] + alt_sets(params.drop_first())
    }
}

/// `r` extended by each choice of `cs` in turn.
pub open spec fn extend_one(r: Seq<Seq<char>>, cs: Seq<Seq<char>>) -> Seq<Seq<Seq<char>>>
    decreases cs.len(),
{
    if cs.len() == 0 {
        Seq::empty()
    } else {
        seq![r.push(cs[0])] + extend_one(r, cs.drop_first())
    }
}

/// Every combination of `acc` extended by each choice of `cs`; combinations
/// keep their order, choices vary fastest.
pub open spec fn extend_all(acc: Seq<Seq<Seq<char>>>, cs: Seq<Seq<char>>) -> Seq<Seq<Seq<char>>>
    decreases acc.len(),
{
    if acc.len() == 0 {
        Seq::empty()
    } else {
        extend_one(acc[0], cs) + extend_all(acc.drop_first(), cs)
    }
}

pub open spec fn product_rec(
    sets: Seq<Seq<Seq<char>>>,
    acc: Seq<Seq<Seq<char>>>,
) -> Seq<Seq<Seq<char>>>
    decreases sets.len(),
{
    if sets.len() == 0 {
        acc
    } else {
        product_rec(sets.drop_first(), extend_all(acc, sets[0]))
    }
}

/// The Cartesian product of the alternative sets, slot by slot, left to
/// right; earlier slots vary slowest.
pub open spec fn product(sets: Seq<Seq<Seq<char>>>) -> Seq<Seq<Seq<char>>> {
    product_rec(sets, seq![Seq::empty()])
}

/// Each combination rendered back into pattern text: the prefix up to and
/// including `<`, the chosen alternatives joined by `", "`, and the suffix
/// from `>` on.
pub open spec fn render_combos(
    prefix: Seq<char>,
    suffix: Seq<char>,
    combos: Seq<Seq<Seq<char>>>,
) -> Seq<Seq<char>>
    decreases combos.len(),
{
    if combos.len() == 0 {
        Seq::empty()
    } else {
        seq![prefix + join_comma(combos[0]) + suffix] + render_combos(
            prefix,
            suffix,
            combos.drop_first(),
        )
    }
}

/// What expanding slot-level alternatives of one pattern string yields: the
/// outermost bracket pair is located, its interior split on top-level
/// commas, each slot split on `|`, and the Cartesian product substituted
/// back between the prefix and the suffix. A string without a usable
/// bracket pair denotes itself alone.
pub open spec fn param_alternatives(s: Seq<char>) -> Seq<Seq<char>> {
    let lt = find_char(s, '<');
    let gt = find_last_char(s, '>');
    if lt == -1 || gt == -1 || gt <= lt {
        seq![s]
    } else {
        render_combos(
            s.take(lt + 1),
            s.skip(gt),
            product(alt_sets(split_top(s.subrange(lt + 1, gt), ','))),
        )
    }
}

/// Each whole-pattern piece contributes itself, or, when it still carries
/// `|` inside its brackets, its slot-level expansion.
pub open spec fn expand_pieces(ps: Seq<Seq<char>>) -> Seq<Seq<char>>
    decreases ps.len(),
{
    if ps.len() == 0 {
        Seq::empty()
    } else {
        (if contains_char(ps[0], '|') {
            param_alternatives(ps[0])
        } else {
            seq![ps[0]]
        }) + expand_pieces(ps.drop_first())
    }
}

/// What splitting one pattern string on alternation yields: the top-level
/// pieces, each piece expanded slot by slot where `|` remains inside it. A
/// string with no non-blank piece denotes itself alone.
pub open spec fn spec_split_pipe(s: Seq<char>) -> Seq<Seq<char>> {
    let pieces = pipe_pieces(s);
    if pieces.len() == 0 {
        seq![s]
    } else {
        expand_pieces(pieces)
    }
}

/// A copy of a list of character vectors.
fn copy_pieces(v: &Vec<Vec<char>>) -> (r: Vec<Vec<char>>)
    ensures
        r.deep_view() == v.deep_view(),
{
    let mut r: Vec<Vec<char>> = Vec::new();
    let mut i: usize = 0;
    while i < v.len()
        invariant
            i <= v@.len(),
            r.deep_view() == v.deep_view().take(i as int),
        decreases v.len() - i,
    {
        let ghost old_dv = r.deep_view();
        let c = copy_chars(&v[i]);
        let ghost csnap = c;
        r.push(c);
        i = i + 1;
        proof {
            lemma_dv_chars(csnap);
            lemma_dv_chars(v@[i - 1]);
            assert(r.deep_view() =~= old_dv.push(csnap@));
            assert(csnap@ == v.deep_view()[i - 1]);
            assert(v.deep_view().take(i as int) =~= old_dv.push(csnap@));
        }
    }
    proof {
        assert(r.deep_view() =~= v.deep_view());
    }
    r
}

/// Appends copies of the pieces of `src` to `dst`.
fn append_pieces(dst: &mut Vec<Vec<char>>, src: &Vec<Vec<char>>)
    ensures
        final(dst).deep_view() == old(dst).deep_view() + src.deep_view(),
{
    let mut i: usize = 0;
    while i < src.len()
        invariant
            i <= src@.len(),
            dst.deep_view() == old(dst).deep_view() + src.deep_view().take(i as int),
        decreases src.len() - i,
    {
        let ghost old_dv = dst.deep_view();
        let c = copy_chars(&src[i]);
        let ghost csnap = c;
        dst.push(c);
        i = i + 1;
        proof {
            lemma_dv_chars(csnap);
            lemma_dv_chars(src@[i - 1]);
            assert(dst.deep_view() =~= old_dv.push(csnap@));
            assert(csnap@ == src.deep_view()[i - 1]);
            assert(old(dst).deep_view() + src.deep_view().take(i as int)
                =~= old_dv.push(csnap@));
        }
    }
    proof {
        assert(dst.deep_view() =~= old(dst).deep_view() + src.deep_view());
    }
}

/// Every piece trimmed.
fn trim_all_vec(ps: &Vec<Vec<char>>) -> (r: Vec<Vec<char>>)
    ensures
        r.deep_view() == trim_all(ps.deep_view()),
{
    let mut r: Vec<Vec<char>> = Vec::new();
    let mut i: usize = 0;
    proof {
        assert(ps.deep_view().skip(0) =~= ps.deep_view());
        assert(r.deep_view() =~= Seq::<Seq<char>>::empty());
    }
    while i < ps.len()
        invariant
            i <= ps@.len(),
            ps.deep_view().len() == ps@.len(),
            r.deep_view() + trim_all(ps.deep_view().skip(i as int)) == trim_all(ps.deep_view()),
        decreases ps.len() - i,
    {
        let ghost rest = ps.deep_view().skip(i as int);
        let ghost old_dv = r.deep_view();
        proof {
            lemma_dv_chars(ps@[i as int]);
            assert(rest[0] == ps.deep_view()[i as int]);
            assert(rest.drop_first() =~= ps.deep_view().skip(i as int + 1));
        }
        let t = trim_chars(&ps[i]);
        let ghost tdv = t@;
        let ghost tsnap = t;
        r.push(t);
        i = i + 1;
        proof {
            lemma_dv_chars(tsnap);
            assert(r.deep_view() =~= old_dv.push(tdv));
            assert(old_dv.push(tdv) + trim_all(ps.deep_view().skip(i as int))
                =~= old_dv + (seq![tdv] + trim_all(ps.deep_view().skip(i as int))));
        }
    }
    proof {
        assert(ps.deep_view().skip(i as int) =~= Seq::<Seq<char>>::empty());
        assert(r.deep_view() + Seq::<Seq<char>>::empty() =~= r.deep_view());
    }
    r
}

/// `r` extended by each choice of `cs`.
fn extend_one_vec(r: &Vec<Vec<char>>, cs: &Vec<Vec<char>>) -> (out: Vec<Vec<Vec<char>>>)
    ensures
        out.deep_view() == extend_one(r.deep_view(), cs.deep_view()),
{
    let mut out: Vec<Vec<Vec<char>>> = Vec::new();
    let mut i: usize = 0;
    proof {
        assert(cs.deep_view().skip(0) =~= cs.deep_view());
        assert(out.deep_view() =~= Seq::<Seq<Seq<char>>>::empty());
    }
    while i < cs.len()
        invariant
            i <= cs@.len(),
            cs.deep_view().len() == cs@.len(),
            out.deep_view() + extend_one(r.deep_view(), cs.deep_view().skip(i as int))
                == extend_one(r.deep_view(), cs.deep_view()),
        decreases cs.len() - i,
    {
        let ghost rest = cs.deep_view().skip(i as int);
        let ghost old_dv = out.deep_view();
        proof {
            lemma_dv_chars(cs@[i as int]);
            assert(rest[0] == cs.deep_view()[i as int]);
            assert(rest.drop_first() =~= cs.deep_view().skip(i as int + 1));
        }
        let mut t = copy_pieces(r);
        t.push(copy_chars(&cs[i]));
        let ghost tdv = t.deep_view();
        proof {
            lemma_dv_chars(t@[t@.len() - 1]);
            assert(tdv =~= r.deep_view().push(rest[0]));
        }
        out.push(t);
        i = i + 1;
        proof {
            assert(out.deep_view() =~= old_dv.push(tdv));
            assert(old_dv.push(r.deep_view().push(rest[0]))
                + extend_one(r.deep_view(), cs.deep_view().skip(i as int))
                =~= old_dv + (seq![r.deep_view().push(rest[0])]
                    + extend_one(r.deep_view(), cs.deep_view().skip(i as int))));
        }
    }
    proof {
        assert(cs.deep_view().skip(i as int) =~= Seq::<Seq<char>>::empty());
        assert(out.deep_view() + Seq::<Seq<Seq<char>>>::empty() =~= out.deep_view());
    }
    out
}

/// Every combination of `acc` extended by each choice of `cs`.
fn extend_all_vec(acc: &Vec<Vec<Vec<char>>>, cs: &Vec<Vec<char>>) -> (out: Vec<Vec<Vec<char>>>)
    ensures
        out.deep_view() == extend_all(acc.deep_view(), cs.deep_view()),
{
    let mut out: Vec<Vec<Vec<char>>> = Vec::new();
    let mut i: usize = 0;
    proof {
        assert(acc.deep_view().skip(0) =~= acc.deep_view());
        assert(out.deep_view() =~= Seq::<Seq<Seq<char>>>::empty());
    }
    while i < acc.len()
        invariant
            i <= acc@.len(),
            acc.deep_view().len() == acc@.len(),
            out.deep_view() + extend_all(acc.deep_view().skip(i as int), cs.deep_view())
                == extend_all(acc.deep_view(), cs.deep_view()),
        decreases acc.len() - i,
    {
        let ghost rest = acc.deep_view().skip(i as int);
        let ghost old_dv = out.deep_view();
        proof {
            assert(rest[0] == acc.deep_view()[i as int]);
            assert(rest.drop_first() =~= acc.deep_view().skip(i as int + 1));
        }
        let block = extend_one_vec(&acc[i], cs);
        let mut j: usize = 0;
        while j < block.len()
            invariant
                j <= block@.len(),
                out.deep_view() == old_dv + block.deep_view().take(j as int),
            decreases block.len() - j,
        {
            let ghost mid_dv = out.deep_view();
            let cp = copy_pieces(&block[j]);
            let ghost cpsnap = cp;
            out.push(cp);
            j = j + 1;
            proof {
                assert(out.deep_view() =~= mid_dv.push(cpsnap.deep_view()));
                assert(cpsnap.deep_view() == block.deep_view()[j - 1]);
                assert(old_dv + block.deep_view().take(j as int)
                    =~= mid_dv.push(cpsnap.deep_view()));
            }
        }
        i = i + 1;
        proof {
            assert(block.deep_view().take(block@.len() as int) =~= block.deep_view());
            assert(out.deep_view() =~= old_dv + extend_one(rest[0], cs.deep_view()));
            assert(old_dv + extend_one(rest[0], cs.deep_view())
                + extend_all(acc.deep_view().skip(i as int), cs.deep_view())
                =~= old_dv + (extend_one(rest[0], cs.deep_view())
                    + extend_all(acc.deep_view().skip(i as int), cs.deep_view())));
        }
    }
    proof {
        assert(acc.deep_view().skip(i as int) =~= Seq::<Seq<Seq<char>>>::empty());
        assert(out.deep_view() + Seq::<Seq<Seq<char>>>::empty() =~= out.deep_view());
    }
    out
}

/// The Cartesian product of the alternative sets.
fn product_vec(sets: &Vec<Vec<Vec<char>>>) -> (r: Vec<Vec<Vec<char>>>)
    ensures
        r.deep_view() == product(sets.deep_view()),
{
    let mut acc: Vec<Vec<Vec<char>>> = Vec::new();
    let empty_combo: Vec<Vec<char>> = Vec::new();
    acc.push(empty_combo);
    let mut i: usize = 0;
    proof {
        assert(sets.deep_view().skip(0) =~= sets.deep_view());
        assert(acc@[0].deep_view() =~= Seq::<Seq<char>>::empty());
        assert(acc.deep_view() =~= seq![Seq::<Seq<char>>::empty()]);
    }
    while i < sets.len()
        invariant
            i <= sets@.len(),
            sets.deep_view().len() == sets@.len(),
            product_rec(sets.deep_view().skip(i as int), acc.deep_view())
                == product(sets.deep_view()),
        decreases sets.len() - i,
    {
        let ghost rest = sets.deep_view().skip(i as int);
        proof {
            assert(rest[0] == sets.deep_view()[i as int]);
            assert(rest.drop_first() =~= sets.deep_view().skip(i as int + 1));
        }
        acc = extend_all_vec(&acc, &sets[i]);
        i = i + 1;
    }
    proof {
        assert(sets.deep_view().skip(i as int) =~= Seq::<Seq<Seq<char>>>::empty());
    }
    acc
}

/// The slot-level expansion of one pattern, over character vectors.
fn param_alts_vec(v: &Vec<char>) -> (r: Vec<Vec<char>>)
    ensures
        r.deep_view() == param_alternatives(v@),
{
    let lt_opt = find_char_vec(v, '<');
    let gt_opt = find_last_char_vec(v, '>');
    let (lt, gt) = match (lt_opt, gt_opt) {
        (Some(lt), Some(gt)) if lt < gt => (lt, gt),
        _ => {
            let mut r: Vec<Vec<char>> = Vec::new();
            r.push(copy_chars(v));
            proof {
                lemma_dv_chars(r@[0]);
                assert(r.deep_view() =~= seq![v@]);
            }
            return r;
        },
    };
    let prefix = subvec(v, 0, lt + 1);
    let interior = subvec(v, lt + 1, gt);
    let suffix = subvec(v, gt, v.len());
    proof {
        assert(prefix@ =~= v@.take(lt as int + 1));
        assert(suffix@ =~= v@.skip(gt as int));
    }
    let params = split_top_vec(&interior, ',');
    let mut sets: Vec<Vec<Vec<char>>> = Vec::new();
    let mut i: usize = 0;
    proof {
        assert(params.deep_view().skip(0) =~= params.deep_view());
        assert(sets.deep_view() =~= Seq::<Seq<Seq<char>>>::empty());
        assert(Seq::<Seq<Seq<char>>>::empty() + alt_sets(params.deep_view())
            =~= alt_sets(params.deep_view()));
    }
    while i < params.len()
        invariant
            i <= params@.len(),
            params.deep_view().len() == params@.len(),
            sets.deep_view() + alt_sets(params.deep_view().skip(i as int))
                == alt_sets(params.deep_view()),
        decreases params.len() - i,
    {
        let ghost rest = params.deep_view().skip(i as int);
        let ghost old_dv = sets.deep_view();
        proof {
            lemma_dv_chars(params@[i as int]);
            assert(rest[0] == params.deep_view()[i as int]);
            assert(rest.drop_first() =~= params.deep_view().skip(i as int + 1));
        }
        let raw = split_top_vec(&params[i], '|');
        let set = trim_all_vec(&raw);
        let ghost setdv = set.deep_view();
        sets.push(set);
        i = i + 1;
        proof {
            assert(sets.deep_view() =~= old_dv.push(setdv));
            assert(old_dv.push(setdv) + alt_sets(params.deep_view().skip(i as int))
                =~= old_dv + (seq![setdv] + alt_sets(params.deep_view().skip(i as int))));
        }
    }
    proof {
        assert(params.deep_view().skip(i as int) =~= Seq::<Seq<char>>::empty());
        assert(sets.deep_view() + Seq::<Seq<Seq<char>>>::empty() =~= sets.deep_view());
    }
    let combos = product_vec(&sets);
    let mut out: Vec<Vec<char>> = Vec::new();
    let mut k: usize = 0;
    proof {
        assert(combos.deep_view().skip(0) =~= combos.deep_view());
        assert(out.deep_view() =~= Seq::<Seq<char>>::empty());
    }
    while k < combos.len()
        invariant
            k <= combos@.len(),
            combos.deep_view().len() == combos@.len(),
            out.deep_view() + render_combos(
                prefix@,
                suffix@,
                combos.deep_view().skip(k as int),
            ) == render_combos(prefix@, suffix@, combos.deep_view()),
        decreases combos.len() - k,
    {
        let ghost rest = combos.deep_view().skip(k as int);
        let ghost old_dv = out.deep_view();
        proof {
            assert(rest[0] == combos.deep_view()[k as int]);
            assert(rest.drop_first() =~= combos.deep_view().skip(k as int + 1));
        }
        let mid = join_comma_vec(&combos[k]);
        let mut w = copy_chars(&prefix);
        crate::text::append_chars(&mut w, &mid);
        crate::text::append_chars(&mut w, &suffix);
        let ghost wdv = w@;
        let ghost wsnap = w;
        proof {
            assert(wdv =~= prefix@ + join_comma(rest[0]) + suffix@);
        }
        out.push(w);
        k = k + 1;
        proof {
            lemma_dv_chars(wsnap);
            assert(out.deep_view() =~= old_dv.push(wdv));
            assert(old_dv.push(wdv)
                + render_combos(prefix@, suffix@, combos.deep_view().skip(k as int))
                =~= old_dv + (seq![prefix@ + join_comma(rest[0]) + suffix@]
                    + render_combos(prefix@, suffix@, combos.deep_view().skip(k as int))));
        }
    }
    proof {
        assert(combos.deep_view().skip(k as int) =~= Seq::<Seq<Seq<char>>>::empty());
        assert(out.deep_view() + Seq::<Seq<char>>::empty() =~= out.deep_view());
    }
    out
}

/// The whole-pattern alternatives followed by slot-level expansion, over
/// character vectors.
fn split_pipe_vec(v: &Vec<char>) -> (r: Vec<Vec<char>>)
    ensures
        r.deep_view() == spec_split_pipe(v@),
{
    let raw = split_top_vec(v, '|');
    let mut pieces: Vec<Vec<char>> = Vec::new();
    let mut i: usize = 0;
    proof {
        assert(raw.deep_view().skip(0) =~= raw.deep_view());
        assert(pieces.deep_view() =~= Seq::<Seq<char>>::empty());
        assert(Seq::<Seq<char>>::empty() + pipe_pieces(v@) =~= pipe_pieces(v@));
    }
    while i < raw.len()
        invariant
            i <= raw@.len(),
            raw.deep_view().len() == raw@.len(),
            pieces.deep_view() + drop_blank(trim_all(raw.deep_view().skip(i as int)))
                == pipe_pieces(v@),
        decreases raw.len() - i,
    {
        let ghost rest = raw.deep_view().skip(i as int);
        let ghost old_dv = pieces.deep_view();
        proof {
            lemma_dv_chars(raw@[i as int]);
            assert(rest[0] == raw.deep_view()[i as int]);
            assert(rest.drop_first() =~= raw.deep_view().skip(i as int + 1));
            assert(trim_all(rest) == seq![trim(rest[0])] + trim_all(rest.drop_first()));
            assert((seq![trim(rest[0])] + trim_all(rest.drop_first()))[0] == trim(rest[0]));
            assert((seq![trim(rest[0])] + trim_all(rest.drop_first())).drop_first()
                =~= trim_all(rest.drop_first()));
        }
        let t = trim_chars(&raw[i]);
        let ghost tdv = t@;
        let ghost tsnap = t;
        if t.len() > 0 {
            pieces.push(t);
            proof {
                lemma_dv_chars(tsnap);
                assert(pieces.deep_view() =~= old_dv.push(tdv));
                assert(old_dv.push(tdv) + drop_blank(trim_all(raw.deep_view().skip(i as int + 1)))
                    =~= old_dv + (seq![tdv] + drop_blank(trim_all(raw.deep_view().skip(i as int + 1)))));
            }
        }
        i = i + 1;
    }
    proof {
        assert(raw.deep_view().skip(i as int) =~= Seq::<Seq<char>>::empty());
        assert(pieces.deep_view() + Seq::<Seq<char>>::empty() =~= pieces.deep_view());
    }
    if pieces.len() == 0 {
        let mut r: Vec<Vec<char>> = Vec::new();
        r.push(copy_chars(v));
        proof {
            lemma_dv_chars(r@[0]);
            assert(r.deep_view() =~= seq![v@]);
        }
        return r;
    }
    let mut out: Vec<Vec<char>> = Vec::new();
    let mut k: usize = 0;
    proof {
        assert(pieces.deep_view().skip(0) =~= pieces.deep_view());
        assert(out.deep_view() =~= Seq::<Seq<char>>::empty());
        assert(Seq::<Seq<char>>::empty() + expand_pieces(pieces.deep_view())
            =~= expand_pieces(pieces.deep_view()));
    }
    while k < pieces.len()
        invariant
            k <= pieces@.len(),
            pieces.deep_view().len() == pieces@.len(),
            pieces.deep_view().len() > 0,
            out.deep_view() + expand_pieces(pieces.deep_view().skip(k as int))
                == expand_pieces(pieces.deep_view()),
        decreases pieces.len() - k,
    {
        let ghost rest = pieces.deep_view().skip(k as int);
        let ghost old_dv = out.deep_view();
        proof {
            lemma_dv_chars(pieces@[k as int]);
            assert(rest[0] == pieces.deep_view()[k as int]);
            assert(rest.drop_first() =~= pieces.deep_view().skip(k as int + 1));
        }
        if contains_char_vec(&pieces[k], '|') {
            let ex = param_alts_vec(&pieces[k]);
            append_pieces(&mut out, &ex);
            proof {
                assert(out.deep_view()
                    + expand_pieces(pieces.deep_view().skip(k as int + 1))
                    =~= old_dv + (param_alternatives(rest[0])
                        + expand_pieces(pieces.deep_view().skip(k as int + 1))));
            }
        } else {
            let piece = copy_chars(&pieces[k]);
            let ghost pdv = piece@;
            let ghost psnap = piece;
            out.push(piece);
            proof {
                lemma_dv_chars(psnap);
                assert(out.deep_view() =~= old_dv.push(pdv));
                assert(old_dv.push(pdv) + expand_pieces(pieces.deep_view().skip(k as int + 1))
                    =~= old_dv + (seq![pdv]
                        + expand_pieces(pieces.deep_view().skip(k as int + 1))));
            }
        }
        k = k + 1;
    }
    proof {
        assert(pieces.deep_view().skip(k as int) =~= Seq::<Seq<char>>::empty());
        assert(out.deep_view() + Seq::<Seq<char>>::empty() =~= out.deep_view());
    }
    out
}

/// The strings holding exactly the given character vectors.
fn to_strings(ps: &Vec<Vec<char>>) -> (r: Vec<String>)
    ensures
        r.deep_view() == ps.deep_view(),
{
    let mut r: Vec<String> = Vec::new();
    let mut i: usize = 0;
    while i < ps.len()
        invariant
            i <= ps@.len(),
            r.deep_view() == ps.deep_view().take(i as int),
        decreases ps.len() - i,
    {
        let ghost old_dv = r.deep_view();
        let st = chars_to_string(&ps[i]);
        let ghost stsnap = st;
        r.push(st);
        i = i + 1;
        proof {
            assert(stsnap.deep_view() == stsnap@);
            lemma_dv_chars(ps@[i - 1]);
            assert(r.deep_view() =~= old_dv.push(stsnap@));
            assert(stsnap@ == ps.deep_view()[i - 1]);
            assert(ps.deep_view().take(i as int) =~= old_dv.push(stsnap@));
        }
    }
    proof {
        assert(r.deep_view() =~= ps.deep_view());
    }
    r
}

/// Expands slot-level alternatives inside the outermost bracket pair into
/// the full Cartesian product of concrete pattern strings, as
/// `param_alternatives` describes.
pub fn expand_type_parameter_alternatives(s: &str) -> (r: Vec<String>)
    ensures
        r.deep_view() == param_alternatives(s@),
{
    let v = str_to_chars(s);
    let pieces = param_alts_vec(&v);
    to_strings(&pieces)
}

/// Splits a pattern string on `|` at bracket depth zero into its
/// whole-pattern alternatives, then expands slot-level alternation inside
/// each piece that still carries `|`, as `spec_split_pipe` describes.
pub fn split_by_pipe_respecting_brackets(s: &str) -> (r: Vec<String>)
    ensures
        r.deep_view() == spec_split_pipe(s@),
{
    let v = str_to_chars(s);
    let pieces = split_pipe_vec(&v);
    to_strings(&pieces)
}

} // verus!
