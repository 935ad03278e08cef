//! A compiler for a small declarative pattern language describing safe
//! coercions between record types that differ only in marker type parameters.
//!
//! A declaration names a source pattern (possibly with `|` alternation and
//! `_` wildcards), a target pattern, and a coercion mode. The pipeline
//! parses the patterns, expands alternation into the full Cartesian product
//! of concrete rules, binds wildcards to the declaring entity's generic
//! parameters, validates the resulting rule set, and emits one conversion
//! descriptor per rule.

pub mod attr;
pub mod compile;
pub mod emit;
pub mod error;
pub mod expand;
pub mod mode;
pub mod pattern;
pub mod resolve;
pub mod rules;
pub mod tagged;
pub mod text;

pub use attr::{parse_coerce_attr, AttrItem, CoercionSpec};
pub use compile::{compile_entity, CompileOutput, EntityDecl, RuleSet};
pub use emit::{emit_descriptor, extract_type_hole_generics, ConversionDescriptor};
pub use error::CompileError;
pub use expand::{expand_type_parameter_alternatives, split_by_pipe_respecting_brackets};
pub use mode::CoercionMode;
pub use pattern::{parse_pattern, ParsedPattern, Slot};
pub use resolve::{parse_target_with_type_holes, ResolvedPattern};
pub use rules::{expand_coercion_spec, ExpandedRule};
pub use tagged::{Tagged, TaggedRef};
