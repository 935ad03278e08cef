//! The declaration surface: one fragment is a list of key/value entries and
//! bare markers. The six mode-qualified keys name the source and target
//! patterns; the `asref` marker requests the secondary view. This module
//! checks a fragment's internal consistency and condenses it into a
//! [`CoercionSpec`].

use vstd::prelude::*;
use crate::error::{res_view, CompileError, ErrorModel};
use crate::mode::CoercionMode;
use crate::text::{eq_chars, str_eq, str_to_chars, trim, trim_chars};

verus! {

broadcast use vstd::string::group_string_axioms;

/// One entry of a declaration fragment: a key with a pattern string, or a
/// bare marker.
#[derive(Debug)]
pub enum AttrItem {
    KeyValue { key: String, value: String },
    Marker { name: String },
}

/// The specification-level shape of an [`AttrItem`].
pub enum AttrItemModel {
    KeyValue { key: Seq<char>, value: Seq<char> },
    Marker { name: Seq<char> },
}

impl View for AttrItem {
    type V = AttrItemModel;

    open spec fn view(&self) -> AttrItemModel {
        match self {
            AttrItem::KeyValue { key, value } => AttrItemModel::KeyValue {
                key: key@,
                value: value@,
            },
            AttrItem::Marker { name } => AttrItemModel::Marker { name: name@ },
        }
    }
}

impl DeepView for AttrItem {
    type V = AttrItemModel;

    open spec fn deep_view(&self) -> AttrItemModel {
        self.view()
    }
}

/// One validated declaration fragment: the source patterns (each possibly
/// holding alternation), the single target pattern, the mode, and whether
/// the secondary view was requested.
#[derive(Debug)]
pub struct CoercionSpec {
    pub from_patterns: Vec<String>,
    pub to_pattern: String,
    pub kind: CoercionMode,
    pub generate_asref: bool,
}

/// The specification-level shape of a [`CoercionSpec`].
pub struct CoercionSpecModel {
    pub from_patterns: Seq<Seq<char>>,
    pub to_pattern: Seq<char>,
    pub kind: CoercionMode,
    pub generate_asref: bool,
}

impl View for CoercionSpec {
    type V = CoercionSpecModel;

    open spec fn view(&self) -> CoercionSpecModel {
        CoercionSpecModel {
            from_patterns: self.from_patterns.deep_view(),
            to_pattern: self.to_pattern@,
            kind: self.kind,
            generate_asref: self.generate_asref,
        }
    }
}

/// The running state of one scan over a fragment's entries.
pub struct AttrState {
    pub mode: Option<CoercionMode>,
    pub from_patterns: Seq<Seq<char>>,
    pub to_pattern: Option<Seq<char>>,
    pub has_asref: bool,
    pub from_mode_seen: Option<CoercionMode>,
    pub to_mode_seen: Option<CoercionMode>,
}

pub open spec fn init_state() -> AttrState {
    AttrState {
        mode: None,
        from_patterns: Seq::empty(),
        to_pattern: None,
        has_asref: false,
        from_mode_seen: None,
        to_mode_seen: None,
    }
}

/// The mode a key names, and whether it is a source key; `None` for a key
/// that is none of the six.
pub open spec fn key_mode(k: Seq<char>) -> Option<(CoercionMode, bool)> {
    if k == "borrowed_from"@ {
        Some((CoercionMode::Borrowed, true))
    } else if k == "borrowed_to"@ {
        Some((CoercionMode::Borrowed, false))
    } else if k == "owned_from"@ {
        Some((CoercionMode::Owned, true))
    } else if k == "owned_to"@ {
        Some((CoercionMode::Owned, false))
    } else if k == "cloned_from"@ {
        Some((CoercionMode::Cloned, true))
    } else if k == "cloned_to"@ {
        Some((CoercionMode::Cloned, false))
    } else {
        None
    }
}

/// The six keys and the marker are pairwise distinct strings.
pub proof fn lemma_keys_distinct()
    ensures
        "borrowed_from"@ != "borrowed_to"@,
        "borrowed_from"@ != "owned_from"@,
        "borrowed_from"@ != "owned_to"@,
        "borrowed_from"@ != "cloned_from"@,
        "borrowed_from"@ != "cloned_to"@,
        "borrowed_to"@ != "owned_from"@,
        "borrowed_to"@ != "owned_to"@,
        "borrowed_to"@ != "cloned_from"@,
        "borrowed_to"@ != "cloned_to"@,
        "owned_from"@ != "owned_to"@,
        "owned_from"@ != "cloned_from"@,
        "owned_from"@ != "cloned_to"@,
        "owned_to"@ != "cloned_from"@,
        "owned_to"@ != "cloned_to"@,
        "cloned_from"@ != "cloned_to"@,
{
    reveal_strlit("borrowed_from");
    reveal_strlit("borrowed_to");
    reveal_strlit("owned_from");
    reveal_strlit("owned_to");
    reveal_strlit("cloned_from");
    reveal_strlit("cloned_to");
    assert("borrowed_from"@.len() == 13);
    assert("borrowed_to"@.len() == 11);
    assert("owned_from"@.len() == 10);
    assert("owned_to"@.len() == 8);
    assert("cloned_from"@.len() == 11);
    assert("cloned_to"@.len() == 9);
    assert("cloned_from"@[0] == 'c');
    assert("borrowed_to"@[0] == 'b');
}

/// How one entry changes the scan state: a source key appends its pattern,
/// a target key sets the single target, the marker sets the secondary-view
/// flag. Faults: an unknown key or marker, a blank pattern, or a second
/// target key.
pub open spec fn step_item(item: AttrItemModel, st: AttrState) -> Result<AttrState, ErrorModel> {
    match item {
        AttrItemModel::KeyValue { key, value } => match key_mode(key) {
            None => Err(ErrorModel::UnknownKey { key }),
            Some(mk) => {
                if mk.1 {
                    if trim(value).len() == 0 {
                        Err(ErrorModel::EmptyValue { key })
                    } else {
                        Ok(AttrState {
                            mode: Some(mk.0),
                            from_patterns: st.from_patterns.push(value),
                            from_mode_seen: Some(mk.0),
                            ..st
                        })
                    }
                } else {
                    if st.to_pattern is Some {
                        Err(ErrorModel::DuplicateTarget { key })
                    } else if trim(value).len() == 0 {
                        Err(ErrorModel::EmptyValue { key })
                    } else {
                        Ok(AttrState {
                            mode: Some(mk.0),
                            to_pattern: Some(value),
                            to_mode_seen: Some(mk.0),
                            ..st
                        })
                    }
                }
            },
        },
        AttrItemModel::Marker { name } => {
            if name == "asref"@ {
                Ok(AttrState { has_asref: true, ..st })
            } else {
                Err(ErrorModel::UnknownMarker { name })
            }
        },
    }
}

pub open spec fn scan_items(items: Seq<AttrItemModel>, st: AttrState) -> Result<
    AttrState,
    ErrorModel,
>
    decreases items.len(),
{
    if items.len() == 0 {
        Ok(st)
    } else {
        match step_item(items[0], st) {
            Ok(st2) => scan_items(items.drop_first(), st2),
            Err(e) => Err(e),
        }
    }
}

/// The first source pattern equal, after trimming, to the target pattern,
/// if any: such a coercion has no effect and signals a declaration
/// mistake. This catches the mistake early, on the raw fragment; the rule
/// validator repeats the check on every expanded, resolved pair.
pub open spec fn first_identity(fps: Seq<Seq<char>>, to: Seq<char>) -> Option<Seq<char>>
    decreases fps.len(),
{
    if fps.len() == 0 {
        None
    } else if trim(fps[0]) == trim(to) {
        Some(fps[0])
    } else {
        first_identity(fps.drop_first(), to)
    }
}

/// The checks made once all entries are scanned, in order: a mode must
/// have been named, at least one source and exactly one target given, the
/// source and target keys must agree on the mode, the secondary view is
/// only accepted for the borrowed mode, and no source may equal the
/// target.
pub open spec fn finish_state(st: AttrState) -> Result<CoercionSpecModel, ErrorModel> {
    match st.mode {
        None => Err(ErrorModel::MissingMode),
        Some(m) => {
            if st.from_patterns.len() == 0 {
                Err(ErrorModel::MissingSource)
            } else {
                match st.to_pattern {
                    None => Err(ErrorModel::MissingTarget),
                    Some(to) => {
                        if st.from_mode_seen matches Some(fm) && st.to_mode_seen matches Some(tm)
                            && fm != tm {
                            Err(ErrorModel::ModeMismatch {
                                from_mode: st.from_mode_seen->0,
                                to_mode: st.to_mode_seen->0,
                            })
                        } else if st.has_asref && !(m is Borrowed) {
                            Err(ErrorModel::SecondaryViewNotBorrowed)
                        } else {
                            match first_identity(st.from_patterns, to) {
                                Some(fp) => Err(ErrorModel::IdentityCoercion { pattern: fp }),
                                None => Ok(CoercionSpecModel {
                                    from_patterns: st.from_patterns,
                                    to_pattern: to,
                                    kind: m,
                                    generate_asref: st.has_asref,
                                }),
                            }
                        }
                    },
                }
            }
        },
    }
}

/// What validating one declaration fragment yields.
pub open spec fn spec_parse_attr(items: Seq<AttrItemModel>) -> Result<
    CoercionSpecModel,
    ErrorModel,
> {
    match scan_items(items, init_state()) {
        Ok(st) => finish_state(st),
        Err(e) => Err(e),
    }
}

/// The mode of the last source key among the entries, if any.
pub open spec fn last_from_mode(items: Seq<AttrItemModel>) -> Option<CoercionMode>
    decreases items.len(),
{
    if items.len() == 0 {
        None
    } else {
        let tailm = last_from_mode(items.drop_first());
        if tailm is Some {
            tailm
        } else {
            match items[0] {
                AttrItemModel::KeyValue { key, .. } => match key_mode(key) {
                    Some(mk) => if mk.1 {
                        Some(mk.0)
                    } else {
                        None
                    },
                    None => None,
                },
                AttrItemModel::Marker { .. } => None,
            }
        }
    }
}

/// The mode of the last target key among the entries, if any.
pub open spec fn last_to_mode(items: Seq<AttrItemModel>) -> Option<CoercionMode>
    decreases items.len(),
{
    if items.len() == 0 {
        None
    } else {
        let tailm = last_to_mode(items.drop_first());
        if tailm is Some {
            tailm
        } else {
            match items[0] {
                AttrItemModel::KeyValue { key, .. } => match key_mode(key) {
                    Some(mk) => if !mk.1 {
                        Some(mk.0)
                    } else {
                        None
                    },
                    None => None,
                },
                AttrItemModel::Marker { .. } => None,
            }
        }
    }
}

proof fn lemma_first_identity_none(fps: Seq<Seq<char>>, to: Seq<char>)
    requires
        first_identity(fps, to) is None,
    ensures
        forall|j: int| 0 <= j < fps.len() ==> trim(#[trigger] fps[j]) != trim(to),
    decreases fps.len(),
{
    if fps.len() > 0 {
        lemma_first_identity_none(fps.drop_first(), to);
        assert(forall|j: int| 1 <= j < fps.len() ==> fps[j] == fps.drop_first()[j - 1]);
    }
}

/// How the scan's bookkeeping relates to the entries: the recorded source
/// and target modes are those of the last source and target keys, a
/// recorded mode comes with its pattern, and source patterns only
/// accumulate.
proof fn lemma_scan_props(items: Seq<AttrItemModel>, st: AttrState)
    ensures
        scan_items(items, st) matches Ok(st2) ==> {
            &&& st2.from_mode_seen == (if last_from_mode(items) is Some {
                last_from_mode(items)
            } else {
                st.from_mode_seen
            })
            &&& st2.to_mode_seen == (if last_to_mode(items) is Some {
                last_to_mode(items)
            } else {
                st.to_mode_seen
            })
            &&& st2.from_patterns.len() >= st.from_patterns.len()
            &&& (last_from_mode(items) is Some ==> st2.from_patterns.len() > 0)
            &&& (st.to_pattern is Some ==> st2.to_pattern is Some)
            &&& (last_to_mode(items) is Some ==> st2.to_pattern is Some)
            &&& (st.mode is Some ==> st2.mode is Some)
            &&& (last_from_mode(items) is Some || last_to_mode(items) is Some
                ==> st2.mode is Some)
        },
    decreases items.len(),
{
    if items.len() > 0 {
        match step_item(items[0], st) {
            Ok(st1) => {
                lemma_scan_props(items.drop_first(), st1);
            },
            Err(_) => {},
        }
    }
}

/// Pairing a source key of one mode with a target key of another always
/// fails validation: the fragment yields an error, never a spec.
pub proof fn lemma_mode_mismatch_rejected(items: Seq<AttrItemModel>)
    requires
        last_from_mode(items) is Some,
        last_to_mode(items) is Some,
        last_from_mode(items) != last_to_mode(items),
    ensures
        spec_parse_attr(items) is Err,
{
    lemma_scan_props(items, init_state());
}

/// Validates one declaration fragment, as `spec_parse_attr` describes.
/// A validated fragment never coerces a pattern to itself: every source
/// pattern differs from the target pattern after trimming.
#[verifier::loop_isolation(false)]
pub fn parse_coerce_attr(items: &Vec<AttrItem>) -> (r: Result<CoercionSpec, CompileError>)
    ensures
        res_view(r) == spec_parse_attr(items.deep_view()),
        r matches Ok(c) ==> forall|j: int| 0 <= j < c.from_patterns@.len()
            ==> trim(#[trigger] c.from_patterns.deep_view()[j]) != trim(c.to_pattern@),
{
    let ghost itemsdv = items.deep_view();
    let mut mode: Option<CoercionMode> = None;
    let mut from_patterns: Vec<String> = Vec::new();
    let mut to_pattern: Option<String> = None;
    let mut has_asref: bool = false;
    let mut from_mode_seen: Option<CoercionMode> = None;
    let mut to_mode_seen: Option<CoercionMode> = None;
    let mut i: usize = 0;
    proof {
        assert(itemsdv.skip(0) =~= itemsdv);
        assert(from_patterns.deep_view() =~= Seq::<Seq<char>>::empty());
    }
    while i < items.len()
        invariant
            i <= items@.len(),
            itemsdv.len() == items@.len(),
            scan_items(
                itemsdv.skip(i as int),
                AttrState {
                    mode: mode,
                    from_patterns: from_patterns.deep_view(),
                    to_pattern: to_pattern.deep_view(),
                    has_asref: has_asref,
                    from_mode_seen: from_mode_seen,
                    to_mode_seen: to_mode_seen,
                },
            ) == scan_items(itemsdv, init_state()),
        decreases items.len() - i,
    {
        let ghost rest = itemsdv.skip(i as int);
        proof {
            assert(rest[0] == itemsdv[i as int]);
            assert(rest.drop_first() =~= itemsdv.skip(i as int + 1));
        }
        match &items[i] {
            AttrItem::KeyValue { key, value } => {
                let from_key = if str_eq(key.as_str(), "borrowed_from") {
                    Some(CoercionMode::Borrowed)
                } else if str_eq(key.as_str(), "owned_from") {
                    Some(CoercionMode::Owned)
                } else if str_eq(key.as_str(), "cloned_from") {
                    Some(CoercionMode::Cloned)
                } else {
                    None
                };
                let to_key = if str_eq(key.as_str(), "borrowed_to") {
                    Some(CoercionMode::Borrowed)
                } else if str_eq(key.as_str(), "owned_to") {
                    Some(CoercionMode::Owned)
                } else if str_eq(key.as_str(), "cloned_to") {
                    Some(CoercionMode::Cloned)
                } else {
                    None
                };
                match (from_key, to_key) {
                    (Some(m), _) => {
                        proof {
                            lemma_keys_distinct();
                            assert(key_mode(key@) == Some((m, true)));
                        }
                        let vchars = str_to_chars(value.as_str());
                        let vtrim = trim_chars(&vchars);
                        if vtrim.len() == 0 {
                            return Err(CompileError::EmptyValue { key: key.clone() });
                        }
                        mode = Some(m);
                        from_mode_seen = Some(m);
                        let ghost old_fps = from_patterns.deep_view();
                        let pushed = value.clone();
                        let ghost psnap = pushed;
                        from_patterns.push(pushed);
                        proof {
                            assert(psnap.deep_view() == psnap@);
                            assert(from_patterns.deep_view() =~= old_fps.push(psnap@));
                        }
                    },
                    (None, Some(m)) => {
                        proof {
                            lemma_keys_distinct();
                            assert(key_mode(key@) == Some((m, false)));
                        }
                        if to_pattern.is_some() {
                            return Err(CompileError::DuplicateTarget { key: key.clone() });
                        }
                        let vchars = str_to_chars(value.as_str());
                        let vtrim = trim_chars(&vchars);
                        if vtrim.len() == 0 {
                            return Err(CompileError::EmptyValue { key: key.clone() });
                        }
                        mode = Some(m);
                        to_mode_seen = Some(m);
                        to_pattern = Some(value.clone());
                    },
                    (None, None) => {
                        proof {
                            lemma_keys_distinct();
                            assert(key_mode(key@) is None);
                        }
                        return Err(CompileError::UnknownKey { key: key.clone() });
                    },
                }
            },
            AttrItem::Marker { name } => {
                if str_eq(name.as_str(), "asref") {
                    has_asref = true;
                } else {
                    return Err(CompileError::UnknownMarker { name: name.clone() });
                }
            },
        }
        i = i + 1;
    }
    proof {
        assert(itemsdv.skip(i as int) =~= Seq::<AttrItemModel>::empty());
    }
    let m = match mode {
        None => {
            return Err(CompileError::MissingMode);
        },
        Some(m) => m,
    };
    if from_patterns.len() == 0 {
        return Err(CompileError::MissingSource);
    }
    let to = match to_pattern {
        None => {
            return Err(CompileError::MissingTarget);
        },
        Some(to) => to,
    };
    match (&from_mode_seen, &to_mode_seen) {
        (Some(fm), Some(tm)) => {
            if *fm != *tm {
                return Err(CompileError::ModeMismatch { from_mode: *fm, to_mode: *tm });
            }
        },
        _ => {},
    }
    let is_borrowed = match m {
        CoercionMode::Borrowed => true,
        _ => false,
    };
    if has_asref && !is_borrowed {
        return Err(CompileError::SecondaryViewNotBorrowed);
    }
    let to_chars = str_to_chars(to.as_str());
    let to_trim = trim_chars(&to_chars);
    let ghost fpsdv = from_patterns.deep_view();
    let ghost todv = to@;
    let mut j: usize = 0;
    proof {
        assert(fpsdv.skip(0) =~= fpsdv);
    }
    while j < from_patterns.len()
        invariant
            j <= from_patterns@.len(),
            fpsdv.len() == from_patterns@.len(),
            first_identity(fpsdv.skip(j as int), todv) == first_identity(fpsdv, todv),
        decreases from_patterns.len() - j,
    {
        let ghost rest = fpsdv.skip(j as int);
        proof {
            assert(from_patterns@[j as int].deep_view() == from_patterns@[j as int]@);
            assert(rest[0] == fpsdv[j as int]);
            assert(rest.drop_first() =~= fpsdv.skip(j as int + 1));
        }
        let fchars = str_to_chars(from_patterns[j].as_str());
        let ftrim = trim_chars(&fchars);
        if eq_chars(&ftrim, &to_trim) {
            return Err(CompileError::IdentityCoercion { pattern: from_patterns[j].clone() });
        }
        j = j + 1;
    }
    proof {
        assert(fpsdv.skip(j as int) =~= Seq::<Seq<char>>::empty());
        lemma_first_identity_none(fpsdv, todv);
    }
    Ok(CoercionSpec { from_patterns, to_pattern: to, kind: m, generate_asref: has_asref })
}

} // verus!
