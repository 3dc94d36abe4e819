//! Laws that hold of validation on every input.
use crate::semantics::validate;
use crate::validate::{outcome, ValidatorResult};
use crate::value::JsonValue;
use vstd::prelude::*;

verus! {

/// Validation is a function of the instance and the schema alone: two runs
/// on the same pair report the same outcome, failure paths included.
pub proof fn law_validation_is_deterministic(
    instance: JsonValue,
    schema: JsonValue,
    first: ValidatorResult,
    second: ValidatorResult,
)
    requires
        outcome(first) == validate(instance, schema),
        outcome(second) == validate(instance, schema),
    ensures
        outcome(first) == outcome(second),
        first is Ok <==> second is Ok,
{
}

/// The schema `true` accepts every instance and the schema `false` rejects
/// every instance.
pub proof fn law_boolean_schemas(instance: JsonValue)
    ensures
        validate(instance, JsonValue::Bool(true)) is None,
        validate(instance, JsonValue::Bool(false)) is Some,
{
}

/// A run succeeds exactly when it reports no failure, which is what
/// `is_valid` returns.
pub proof fn law_success_is_validity(instance: JsonValue, schema: JsonValue, r: ValidatorResult)
    requires
        outcome(r) == validate(instance, schema),
    ensures
        r is Ok <==> validate(instance, schema) is None,
{
}

} // verus!
