//! Structured diagnostics: every failure of the pipeline is reported as a
//! value carrying the kind of fault and the offending text and positions,
//! never as a bare message.

use vstd::prelude::*;
use crate::mode::CoercionMode;

verus! {

/// The specification-level shape of a diagnostic: the same variants as
/// [`CompileError`], with text as character sequences.
pub enum ErrorModel {
    UnbalancedBrackets { pattern: Seq<char>, position: int },
    EmptySegment { pattern: Seq<char>, segment: int },
    TrailingContent { pattern: Seq<char>, position: int },
    WildcardOutOfRange { pattern: Seq<char>, position: int, available: int },
    ParityMismatch {
        source: Seq<char>,
        target: Seq<char>,
        source_positions: Seq<usize>,
        target_positions: Seq<usize>,
    },
    IdentityCoercion { pattern: Seq<char> },
    ModeMismatch { from_mode: CoercionMode, to_mode: CoercionMode },
    MissingMode,
    MissingSource,
    MissingTarget,
    DuplicateTarget { key: Seq<char> },
    EmptyValue { key: Seq<char> },
    UnknownKey { key: Seq<char> },
    UnknownMarker { name: Seq<char> },
    SecondaryViewNotBorrowed,
    NoDeclarations,
}

/// A fatal fault found while compiling a declaration. Grammar faults carry
/// the offending pattern text and a character position; semantic faults
/// carry the concrete values involved.
#[derive(Debug)]
pub enum CompileError {
    /// An angle bracket in a pattern is never closed, or a closing bracket
    /// has no opening one. The position is that of the offending character,
    /// or the pattern's length when the text ends with brackets still open.
    UnbalancedBrackets { pattern: String, position: usize },
    /// A parameter slot of the pattern is empty; `segment` is the index of
    /// the offending slot.
    EmptySegment { pattern: String, segment: usize },
    /// Non-whitespace text follows the closing bracket of a pattern.
    TrailingContent { pattern: String, position: usize },
    /// A wildcard sits at a slot position with no matching generic
    /// parameter; `available` is the number of generic parameters.
    WildcardOutOfRange { pattern: String, position: usize, available: usize },
    /// A source and a target pattern mark different slot positions as
    /// wildcards.
    ParityMismatch {
        source: String,
        target: String,
        source_positions: Vec<usize>,
        target_positions: Vec<usize>,
    },
    /// A declaration coerces a pattern to itself: raised on a fragment
    /// whose raw source equals its raw target, and again by the rule
    /// validator on any expanded pair whose resolved source and target
    /// texts are identical after trimming. The field carries the
    /// offending source text, which names the target too.
    IdentityCoercion { pattern: String },
    /// The source key and the target key of one fragment name different
    /// modes.
    ModeMismatch { from_mode: CoercionMode, to_mode: CoercionMode },
    /// No key of the fragment names a coercion mode.
    MissingMode,
    /// The fragment has no source pattern.
    MissingSource,
    /// The fragment has no target pattern.
    MissingTarget,
    /// The target side of one fragment is given more than once.
    DuplicateTarget { key: String },
    /// A key's pattern text is empty or blank.
    EmptyValue { key: String },
    /// A key is none of the six mode-qualified source and target keys.
    UnknownKey { key: String },
    /// A bare marker is not the secondary-view marker.
    UnknownMarker { name: String },
    /// The secondary-view marker is set on a fragment whose mode is not
    /// `Borrowed`.
    SecondaryViewNotBorrowed,
    /// The declaring entity has no coercion fragments at all.
    NoDeclarations,
}

impl View for CompileError {
    type V = ErrorModel;

    open spec fn view(&self) -> ErrorModel {
        match self {
            CompileError::UnbalancedBrackets { pattern, position } =>
                ErrorModel::UnbalancedBrackets { pattern: pattern@, position: *position as int },
            CompileError::EmptySegment { pattern, segment } =>
                ErrorModel::EmptySegment { pattern: pattern@, segment: *segment as int },
            CompileError::TrailingContent { pattern, position } =>
                ErrorModel::TrailingContent { pattern: pattern@, position: *position as int },
            CompileError::WildcardOutOfRange { pattern, position, available } =>
                ErrorModel::WildcardOutOfRange {
                    pattern: pattern@,
                    position: *position as int,
                    available: *available as int,
                },
            CompileError::ParityMismatch { source, target, source_positions, target_positions } =>
                ErrorModel::ParityMismatch {
                    source: source@,
                    target: target@,
                    source_positions: source_positions@,
                    target_positions: target_positions@,
                },
            CompileError::IdentityCoercion { pattern } =>
                ErrorModel::IdentityCoercion { pattern: pattern@ },
            CompileError::ModeMismatch { from_mode, to_mode } =>
                ErrorModel::ModeMismatch { from_mode: *from_mode, to_mode: *to_mode },
            CompileError::MissingMode => ErrorModel::MissingMode,
            CompileError::MissingSource => ErrorModel::MissingSource,
            CompileError::MissingTarget => ErrorModel::MissingTarget,
            CompileError::DuplicateTarget { key } => ErrorModel::DuplicateTarget { key: key@ },
            CompileError::EmptyValue { key } => ErrorModel::EmptyValue { key: key@ },
            CompileError::UnknownKey { key } => ErrorModel::UnknownKey { key: key@ },
            CompileError::UnknownMarker { name } => ErrorModel::UnknownMarker { name: name@ },
            CompileError::SecondaryViewNotBorrowed => ErrorModel::SecondaryViewNotBorrowed,
            CompileError::NoDeclarations => ErrorModel::NoDeclarations,
        }
    }
}

impl CompileError {
    /// A fixed message naming the kind of fault; the offending values stand
    /// in the variant's fields.
    pub fn describe(&self) -> (r: &'static str)
        ensures
            *self is UnbalancedBrackets ==> r@ == "unbalanced angle brackets in pattern"@,
            *self is EmptySegment ==> r@ == "empty parameter slot in pattern"@,
            *self is TrailingContent ==> r@ == "unexpected text after closing bracket"@,
            *self is WildcardOutOfRange ==> r@ == "wildcard position exceeds the generic parameter count"@,
            *self is ParityMismatch ==> r@ == "source and target mark different wildcard positions"@,
            *self is IdentityCoercion ==> r@ == "coercion from a pattern to itself has no effect"@,
            *self is ModeMismatch ==> r@ == "source and target keys name different modes"@,
            *self is MissingMode ==> r@ == "no coercion mode named in the declaration"@,
            *self is MissingSource ==> r@ == "no source pattern in the declaration"@,
            *self is MissingTarget ==> r@ == "no target pattern in the declaration"@,
            *self is DuplicateTarget ==> r@ == "target pattern given more than once"@,
            *self is EmptyValue ==> r@ == "pattern text is empty"@,
            *self is UnknownKey ==> r@ == "unknown declaration key"@,
            *self is UnknownMarker ==> r@ == "unknown declaration marker"@,
            *self is SecondaryViewNotBorrowed ==> r@ == "secondary view is only valid for borrowed coercions"@,
            *self is NoDeclarations ==> r@ == "entity declares no coercions"@,
    {
        match self {
            CompileError::UnbalancedBrackets { .. } => "unbalanced angle brackets in pattern",
            CompileError::EmptySegment { .. } => "empty parameter slot in pattern",
            CompileError::TrailingContent { .. } => "unexpected text after closing bracket",
            CompileError::WildcardOutOfRange { .. } => "wildcard position exceeds the generic parameter count",
            CompileError::ParityMismatch { .. } => "source and target mark different wildcard positions",
            CompileError::IdentityCoercion { .. } => "coercion from a pattern to itself has no effect",
            CompileError::ModeMismatch { .. } => "source and target keys name different modes",
            CompileError::MissingMode => "no coercion mode named in the declaration",
            CompileError::MissingSource => "no source pattern in the declaration",
            CompileError::MissingTarget => "no target pattern in the declaration",
            CompileError::DuplicateTarget { .. } => "target pattern given more than once",
            CompileError::EmptyValue { .. } => "pattern text is empty",
            CompileError::UnknownKey { .. } => "unknown declaration key",
            CompileError::UnknownMarker { .. } => "unknown declaration marker",
            CompileError::SecondaryViewNotBorrowed => "secondary view is only valid for borrowed coercions",
            CompileError::NoDeclarations => "entity declares no coercions",
        }
    }
}

/// The view of a `Result`, both sides viewed.
pub open spec fn res_view<T: View, E: View>(r: Result<T, E>) -> Result<T::V, E::V> {
    match r {
        Ok(t) => Ok(t@),
        Err(e) => Err(e@),
    }
}

} // verus!
