//! A structurally verified model of the conversion operations the
//! descriptors call for. A reinterpretation primitive is outside what can
//! be checked, so a conversion is modelled as a retagging that moves,
//! borrows, or duplicates the payload field for field: the payload is
//! proved unchanged, and a cloned conversion is proved to duplicate the
//! whole source value before the duplicate is retagged.

use vstd::prelude::*;
use vstd::pervasive::cloned;
use crate::mode::CoercionMode;
use crate::rules::ExpandedRule;
use crate::text::str_eq;

verus! {

/// A value carrying the concrete type-pattern text it is currently viewed
/// at.
#[derive(Debug)]
pub struct Tagged<V> {
    pub ty: String,
    pub value: V,
}

/// A borrowed view of a tagged value under another type pattern: the
/// payload is the original's, untouched.
#[derive(Debug)]
pub struct TaggedRef<'a, V> {
    pub ty: String,
    pub value: &'a V,
}

impl<V> Tagged<V> {
    pub fn new(ty: String, value: V) -> (t: Tagged<V>)
        ensures
            t.ty == ty,
            t.value == value,
    {
        Tagged { ty, value }
    }

    /// Whether `rule` converts this value in the given mode: the value's
    /// tag must be the rule's source pattern.
    pub fn applies(&self, rule: &ExpandedRule, mode: CoercionMode) -> (b: bool)
        ensures
            b == (self.ty@ == rule.source@ && rule.mode == mode),
    {
        str_eq(self.ty.as_str(), rule.source.as_str()) && rule.mode == mode
    }

    /// The borrowed conversion: the same payload viewed at the rule's
    /// target pattern; nothing is moved or copied.
    pub fn coerce<'a>(&'a self, rule: &ExpandedRule) -> (r: TaggedRef<'a, V>)
        requires
            self.ty@ == rule.source@,
            rule.mode is Borrowed,
        ensures
            r.ty@ == rule.target@,
            r.value == &self.value,
    {
        TaggedRef { ty: rule.target.clone(), value: &self.value }
    }

    /// The owned conversion: consumes the value and retags it; the payload
    /// moves unchanged.
    pub fn into_coerced(self, rule: &ExpandedRule) -> (r: Tagged<V>)
        requires
            self.ty@ == rule.source@,
            rule.mode is Owned,
        ensures
            r.ty@ == rule.target@,
            r.value == self.value,
    {
        Tagged { ty: rule.target.clone(), value: self.value }
    }

    /// The cloned conversion: duplicates the whole source value first and
    /// retags the duplicate, so the original keeps its resources.
    pub fn to_coerced(&self, rule: &ExpandedRule) -> (r: Tagged<V>) where V: Clone
        requires
            self.ty@ == rule.source@,
            rule.mode is Cloned,
        ensures
            r.ty@ == rule.target@,
            cloned(self.value, r.value),
    {
        let duplicate = self.value.clone();
        Tagged { ty: rule.target.clone(), value: duplicate }
    }
}

} // verus!
