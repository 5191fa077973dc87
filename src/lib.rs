//! Normalizes JSON Schema documents into the restricted dialect accepted by
//! function-calling APIs: constraint keywords are dropped, `oneOf` and `allOf`
//! become `anyOf`, object schemas are closed and every declared property is
//! required.
use vstd::prelude::*;

pub mod json;
pub mod rewrite;
pub mod walk;
pub mod laws;

use crate::json::{well_formed, JsonValue};
use crate::rewrite::{normalize, walk, Pass};
use crate::walk::walk_value;

verus! {

/// A JSON Schema that is compatible with the function-calling dialect.
pub struct Schema {
    pub value: JsonValue,
}

impl Schema {
    /// Takes a generated schema document and normalizes it.
    pub fn new(value: JsonValue) -> (s: Schema)
        requires
            well_formed(value@),
        ensures
            s.value@ == normalize(value@),
            well_formed(s.value@),
    {
        let mut schema = Schema { value };
        schema.enforce_openai_subset();
        schema
    }

    /// Runs the four rewrites in their fixed order.
    pub fn enforce_openai_subset(&mut self)
        requires
            well_formed(old(self).value@),
        ensures
            final(self).value@ == normalize(old(self).value@),
            well_formed(final(self).value@),
    {
        Self::remove_property_format_value_from_json(&mut self.value);
        Self::replace_one_of_by_any_of(&mut self.value);
        Self::set_additional_properties_to_false(&mut self.value);
        Self::enforce_all_required_properties(&mut self.value);
    }

    /// Removes the constraint keywords from every object.
    pub fn remove_property_format_value_from_json(object: &mut JsonValue)
        requires
            well_formed(old(object)@),
        ensures
            final(object)@ == walk(Pass::StripConstraints, old(object)@),
            well_formed(final(object)@),
    {
        Self::apply(Pass::StripConstraints, object);
    }

    /// Moves `oneOf` and then `allOf` to `anyOf` in every object.
    pub fn replace_one_of_by_any_of(object: &mut JsonValue)
        requires
            well_formed(old(object)@),
        ensures
            final(object)@ == walk(Pass::UnifyAlternatives, old(object)@),
            well_formed(final(object)@),
    {
        Self::apply(Pass::UnifyAlternatives, object);
    }

    /// Sets `additionalProperties` to `false` in every object whose `type` is `"object"`.
    pub fn set_additional_properties_to_false(object: &mut JsonValue)
        requires
            well_formed(old(object)@),
        ensures
            final(object)@ == walk(Pass::CloseObjects, old(object)@),
            well_formed(final(object)@),
    {
        Self::apply(Pass::CloseObjects, object);
    }

    /// Appends every declared property to `required`, where a node has both.
    pub fn enforce_all_required_properties(object: &mut JsonValue)
        requires
            well_formed(old(object)@),
        ensures
            final(object)@ == walk(Pass::RequireAll, old(object)@),
            well_formed(final(object)@),
    {
        Self::apply(Pass::RequireAll, object);
    }

    fn apply(p: Pass, object: &mut JsonValue)
        requires
            well_formed(old(object)@),
        ensures
            final(object)@ == walk(p, old(object)@),
            well_formed(final(object)@),
    {
        let mut taken = JsonValue::Null;
        std::mem::swap(object, &mut taken);
        *object = walk_value(p, taken);
    }
}

} // verus!
