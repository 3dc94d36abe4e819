//! The validation engine: `run_validators` applies every keyword rule of a
//! schema object in order and descends into nested schemas and values.
use crate::error::{error_of, ErrorView, ValidationError};
use crate::number::{compare_numbers, multiple_of, JsonNumber};
use crate::pattern::{regex_compile_fault, regex_is_match, CompiledPattern, RegexFailure};
use crate::semantics::{
    additional_items_from, additional_properties_from, all_of_from, any_of_from, apply_rule,
    count_number, decimal, dependencies_from, digit_char, extend, extras_fault, extras_filtered,
    fault_message, first_extra_from, has_duplicates, first_fault_from, first_missing, first_missing_from,
    items_each_from, items_tuple_from, keyword_of, passing_from, pattern_members_from,
    pattern_properties_from, properties_from, property_names_from, sibling_members,
    single_type_matches, some_pattern_matches, tuple_length, some_valid_from, validate, validate_keywords,
    validate_normalized, Keyword,
};
use crate::value::{find_key, find_member, json_eq, json_equal, JsonValue};
use vstd::prelude::*;

verus! {

/// The result of a validation.
pub type ValidatorResult = Result<(), ValidationError>;

/// A result as a failure or its absence.
pub open spec fn outcome(r: ValidatorResult) -> Option<ErrorView> {
    match r {
        Ok(()) => None,
        Err(e) => Some(e@),
    }
}

/// A path segment as text.
pub open spec fn key_view(k: Option<&String>) -> Option<Seq<char>> {
    match k {
        Some(s) => Some(s@),
        None => None,
    }
}

/// A child of an object decreases from it.
proof fn lemma_member_decreases(v: JsonValue, j: int)
    requires
        v is Object,
        0 <= j < v->Object_0@.len(),
    ensures
        decreases_to!(v => v->Object_0@[j].1),
{
    assert(decreases_to!(v => v->Object_0));
    assert(decreases_to!(v->Object_0 => v->Object_0@));
    assert(decreases_to!(v->Object_0@ => v->Object_0@[j]));
    assert(decreases_to!(v->Object_0@[j] => v->Object_0@[j].1));
}

/// An element of an array decreases from it.
proof fn lemma_element_decreases(v: JsonValue, j: int)
    requires
        v is Array,
        0 <= j < v->Array_0@.len(),
    ensures
        decreases_to!(v => v->Array_0@[j]),
{
    assert(decreases_to!(v => v->Array_0));
    assert(decreases_to!(v->Array_0 => v->Array_0@));
    assert(decreases_to!(v->Array_0@ => v->Array_0@[j]));
}

/// Whether `name` is the text `lit`.
fn is_named(name: &String, lit: &str) -> (r: bool)
    ensures
        r == (name@ == lit@),
{
    let l = String::from_str(lit);
    name.eq(&l)
}

/// The keyword named `name`, if it has a rule.
pub fn keyword_named(name: &String) -> (r: Option<Keyword>)
    ensures
        r == keyword_of(name@),
{
    if is_named(name, "patternProperties") {
        Some(Keyword::PatternProperties)
    } else if is_named(name, "propertyNames") {
        Some(Keyword::PropertyNames)
    } else if is_named(name, "additionalProperties") {
        Some(Keyword::AdditionalProperties)
    } else if is_named(name, "items") {
        Some(Keyword::Items)
    } else if is_named(name, "additionalItems") {
        Some(Keyword::AdditionalItems)
    } else if is_named(name, "const") {
        Some(Keyword::Const)
    } else if is_named(name, "contains") {
        Some(Keyword::Contains)
    } else if is_named(name, "exclusiveMinimum") {
        Some(Keyword::ExclusiveMinimum)
    } else if is_named(name, "exclusiveMaximum") {
        Some(Keyword::ExclusiveMaximum)
    } else if is_named(name, "minimum") {
        Some(Keyword::Minimum)
    } else if is_named(name, "maximum") {
        Some(Keyword::Maximum)
    } else if is_named(name, "multipleOf") {
        Some(Keyword::MultipleOf)
    } else if is_named(name, "minItems") {
        Some(Keyword::MinItems)
    } else if is_named(name, "maxItems") {
        Some(Keyword::MaxItems)
    } else if is_named(name, "uniqueItems") {
        Some(Keyword::UniqueItems)
    } else if is_named(name, "minLength") {
        Some(Keyword::MinLength)
    } else if is_named(name, "maxLength") {
        Some(Keyword::MaxLength)
    } else if is_named(name, "dependencies") {
        Some(Keyword::Dependencies)
    } else if is_named(name, "enum") {
        Some(Keyword::Enum)
    } else if is_named(name, "type") {
        Some(Keyword::Type)
    } else if is_named(name, "properties") {
        Some(Keyword::Properties)
    } else if is_named(name, "required") {
        Some(Keyword::Required)
    } else if is_named(name, "minProperties") {
        Some(Keyword::MinProperties)
    } else if is_named(name, "maxProperties") {
        Some(Keyword::MaxProperties)
    } else if is_named(name, "allOf") {
        Some(Keyword::AllOf)
    } else if is_named(name, "anyOf") {
        Some(Keyword::AnyOf)
    } else if is_named(name, "oneOf") {
        Some(Keyword::OneOf)
    } else if is_named(name, "not") {
        Some(Keyword::Not)
    } else {
        None
    }
}

/// The decimal digit `d`, as text.
fn digit_text(d: usize) -> (r: &'static str)
    requires
        d < 10,
    ensures
        r@ == seq![digit_char(d as nat)],
{
    proof {
        reveal_strlit("0");
        reveal_strlit("1");
        reveal_strlit("2");
        reveal_strlit("3");
        reveal_strlit("4");
        reveal_strlit("5");
        reveal_strlit("6");
        reveal_strlit("7");
        reveal_strlit("8");
        reveal_strlit("9");
    }
    if d == 0 {
        "0"
    } else if d == 1 {
        "1"
    } else if d == 2 {
        "2"
    } else if d == 3 {
        "3"
    } else if d == 4 {
        "4"
    } else if d == 5 {
        "5"
    } else if d == 6 {
        "6"
    } else if d == 7 {
        "7"
    } else if d == 8 {
        "8"
    } else {
        "9"
    }
}

/// `n` in decimal.
pub fn decimal_text(n: usize) -> (r: String)
    ensures
        r@ == decimal(n as nat),
    decreases n,
{
    if n < 10 {
        String::from_str(digit_text(n))
    } else {
        let head = decimal_text(n / 10);
        head.concat(digit_text(n % 10))
    }
}

/// A failure with `msg` and empty paths.
fn failure(msg: &str) -> (r: ValidatorResult)
    ensures
        outcome(r) == Some(error_of(msg@)),
{
    Err(ValidationError::new(msg))
}

/// Validates `instance` against `schema`: the first failure, in the schema's
/// own key order, with the path to it; or success.
pub fn run_validators(instance: &JsonValue, schema: &JsonValue) -> (r: ValidatorResult)
    ensures
        outcome(r) == validate(*instance, *schema),
    decreases schema, 3nat, 0int,
{
    match schema {
        JsonValue::Bool(b) => {
            if *b {
                Ok(())
            } else {
                failure("False schema always fails")
            }
        },
        JsonValue::Object(ms) => {
            let reference = String::from_str("$ref");
            if find_member(ms, &reference).is_some() {
                return Ok(());
            }
            let mut i: usize = 0;
            while i < ms.len()
                invariant
                    find_key(ms@, "$ref"@) is None,
                    *schema == JsonValue::Object(*ms),
                    i <= ms@.len(),
                    validate_keywords(*instance, *schema, 0) == validate_keywords(
                        *instance,
                        *schema,
                        i as int,
                    ),
                decreases ms@.len() - i,
            {
                match keyword_named(&ms[i].0) {
                    Some(k) => {
                        proof {
                            lemma_member_decreases(*schema, i as int);
                        }
                        match apply_keyword(k, instance, &ms[i].1, ms) {
                            Ok(()) => {},
                            Err(e) => {
                                let mut e = e;
                                e.push_schema(ms[i].0.clone());
                                return Err(e);
                            },
                        }
                    },
                    None => {},
                }
                i = i + 1;
            }
            Ok(())
        },
        _ => failure("Invalid schema"),
    }
}

/// Whether `instance` is valid against `schema`.
pub fn is_valid(instance: &JsonValue, schema: &JsonValue) -> (r: bool)
    ensures
        r == (validate(*instance, *schema) is None),
    decreases schema, 3nat, 1int,
{
    run_validators(instance, schema).is_ok()
}

/// Validates a child pair, adding the given segments to the paths of a failure.
fn descend(
    instance: &JsonValue,
    schema: &JsonValue,
    instance_key: Option<&String>,
    schema_key: Option<&String>,
) -> (r: ValidatorResult)
    ensures
        outcome(r) == extend(
            validate(*instance, *schema),
            key_view(instance_key),
            key_view(schema_key),
        ),
    decreases schema, 3nat, 1int,
{
    match run_validators(instance, schema) {
        Ok(()) => Ok(()),
        Err(e) => {
            let mut e = e;
            match instance_key {
                Some(k) => e.push_instance(k.clone()),
                None => {},
            }
            match schema_key {
                Some(k) => e.push_schema(k.clone()),
                None => {},
            }
            Err(e)
        },
    }
}

/// Validates against a schema whose boolean forms are read as `{}` and
/// `{"not": {}}`.
fn run_normalized(instance: &JsonValue, schema: &JsonValue) -> (r: ValidatorResult)
    ensures
        outcome(r) == validate_normalized(*instance, *schema),
    decreases schema, 4nat, 0int,
{
    match schema {
        JsonValue::Bool(b) => {
            if *b {
                Ok(())
            } else {
                let mut e = ValidationError::new("not");
                e.push_schema(String::from_str("not"));
                Err(e)
            }
        },
        _ => run_validators(instance, schema),
    }
}

/// Applies the rule of keyword `k`.
fn apply_keyword(
    k: Keyword,
    instance: &JsonValue,
    value: &JsonValue,
    parent: &Vec<(String, JsonValue)>,
) -> (r: ValidatorResult)
    ensures
        outcome(r) == apply_rule(k, *instance, *value, parent@),
    decreases value, 6nat, 0int,
{
    match k {
        Keyword::PatternProperties => validate_pattern_properties(instance, value, parent),
        Keyword::PropertyNames => validate_property_names(instance, value, parent),
        Keyword::AdditionalProperties => validate_additional_properties(instance, value, parent),
        Keyword::Items => validate_items(instance, value, parent),
        Keyword::AdditionalItems => validate_additional_items(instance, value, parent),
        Keyword::Const => validate_const(instance, value, parent),
        Keyword::Contains => validate_contains(instance, value, parent),
        Keyword::ExclusiveMinimum => validate_exclusive_minimum(instance, value, parent),
        Keyword::ExclusiveMaximum => validate_exclusive_maximum(instance, value, parent),
        Keyword::Minimum => validate_minimum(instance, value, parent),
        Keyword::Maximum => validate_maximum(instance, value, parent),
        Keyword::MultipleOf => validate_multiple_of(instance, value, parent),
        Keyword::MinItems => validate_min_items(instance, value, parent),
        Keyword::MaxItems => validate_max_items(instance, value, parent),
        Keyword::UniqueItems => validate_unique_items(instance, value, parent),
        Keyword::MinLength => validate_min_length(instance, value, parent),
        Keyword::MaxLength => validate_max_length(instance, value, parent),
        Keyword::Dependencies => validate_dependencies(instance, value, parent),
        Keyword::Enum => validate_enum(instance, value, parent),
        Keyword::Type => validate_type(instance, value, parent),
        Keyword::Properties => validate_properties(instance, value, parent),
        Keyword::Required => validate_required(instance, value, parent),
        Keyword::MinProperties => validate_min_properties(instance, value, parent),
        Keyword::MaxProperties => validate_max_properties(instance, value, parent),
        Keyword::AllOf => validate_all_of(instance, value, parent),
        Keyword::AnyOf => validate_any_of(instance, value, parent),
        Keyword::OneOf => validate_one_of(instance, value, parent),
        Keyword::Not => validate_not(instance, value, parent),
    }
}

/// A count as a number.
fn count_as_number(n: usize) -> (r: JsonNumber)
    ensures
        r == count_number(n as nat),
{
    JsonNumber { negative: false, mantissa: n as u64, exponent: 0, binary64: false }
}

/// `exclusiveMinimum`: a number must lie above the bound.
fn validate_exclusive_minimum(
    instance: &JsonValue,
    value: &JsonValue,
    parent: &Vec<(String, JsonValue)>,
) -> (r: ValidatorResult)
    ensures
        outcome(r) == apply_rule(Keyword::ExclusiveMinimum, *instance, *value, parent@),
    decreases value, 5nat, 0int,
{
    if let (JsonValue::Number(a), JsonValue::Number(b)) = (instance, value) {
        if compare_numbers(&a.round_to_binary64(), &b.round_to_binary64()) <= 0 {
            return failure("exclusiveMinimum");
        }
    }
    Ok(())
}

/// `exclusiveMaximum`: a number must lie below the bound.
fn validate_exclusive_maximum(
    instance: &JsonValue,
    value: &JsonValue,
    parent: &Vec<(String, JsonValue)>,
) -> (r: ValidatorResult)
    ensures
        outcome(r) == apply_rule(Keyword::ExclusiveMaximum, *instance, *value, parent@),
    decreases value, 5nat, 0int,
{
    if let (JsonValue::Number(a), JsonValue::Number(b)) = (instance, value) {
        if compare_numbers(&a.round_to_binary64(), &b.round_to_binary64()) >= 0 {
            return failure("exclusiveMaximum");
        }
    }
    Ok(())
}

/// `minimum`: a number must not lie below the bound.
fn validate_minimum(
    instance: &JsonValue,
    value: &JsonValue,
    parent: &Vec<(String, JsonValue)>,
) -> (r: ValidatorResult)
    ensures
        outcome(r) == apply_rule(Keyword::Minimum, *instance, *value, parent@),
    decreases value, 5nat, 0int,
{
    if let (JsonValue::Number(a), JsonValue::Number(b)) = (instance, value) {
        if compare_numbers(&a.round_to_binary64(), &b.round_to_binary64()) < 0 {
            return failure("minimum");
        }
    }
    Ok(())
}

/// `maximum`: a number must not lie above the bound.
fn validate_maximum(
    instance: &JsonValue,
    value: &JsonValue,
    parent: &Vec<(String, JsonValue)>,
) -> (r: ValidatorResult)
    ensures
        outcome(r) == apply_rule(Keyword::Maximum, *instance, *value, parent@),
    decreases value, 5nat, 0int,
{
    if let (JsonValue::Number(a), JsonValue::Number(b)) = (instance, value) {
        if compare_numbers(&a.round_to_binary64(), &b.round_to_binary64()) > 0 {
            return failure("maximum");
        }
    }
    Ok(())
}

/// `multipleOf`: a number must be an integer multiple of the divisor.
fn validate_multiple_of(
    instance: &JsonValue,
    value: &JsonValue,
    parent: &Vec<(String, JsonValue)>,
) -> (r: ValidatorResult)
    ensures
        outcome(r) == apply_rule(Keyword::MultipleOf, *instance, *value, parent@),
    decreases value, 5nat, 0int,
{
    if let (JsonValue::Number(a), JsonValue::Number(b)) = (instance, value) {
        if !multiple_of(a, b) {
            return failure("not multipleOf");
        }
    }
    Ok(())
}

/// `minItems`: an array must not be shorter than the bound.
fn validate_min_items(
    instance: &JsonValue,
    value: &JsonValue,
    parent: &Vec<(String, JsonValue)>,
) -> (r: ValidatorResult)
    ensures
        outcome(r) == apply_rule(Keyword::MinItems, *instance, *value, parent@),
    decreases value, 5nat, 0int,
{
    if let (JsonValue::Array(xs), JsonValue::Number(b)) = (instance, value) {
        if compare_numbers(&count_as_number(xs.len()), b) < 0 {
            return failure("minItems");
        }
    }
    Ok(())
}

/// `maxItems`: an array must not be longer than the bound.
fn validate_max_items(
    instance: &JsonValue,
    value: &JsonValue,
    parent: &Vec<(String, JsonValue)>,
) -> (r: ValidatorResult)
    ensures
        outcome(r) == apply_rule(Keyword::MaxItems, *instance, *value, parent@),
    decreases value, 5nat, 0int,
{
    if let (JsonValue::Array(xs), JsonValue::Number(b)) = (instance, value) {
        if compare_numbers(b, &count_as_number(xs.len())) < 0 {
            return failure("maxItems");
        }
    }
    Ok(())
}

/// `minLength`: a string must not hold fewer characters than the bound.
fn validate_min_length(
    instance: &JsonValue,
    value: &JsonValue,
    parent: &Vec<(String, JsonValue)>,
) -> (r: ValidatorResult)
    ensures
        outcome(r) == apply_rule(Keyword::MinLength, *instance, *value, parent@),
    decreases value, 5nat, 0int,
{
    if let (JsonValue::String(s), JsonValue::Number(b)) = (instance, value) {
        if compare_numbers(&count_as_number(s.as_str().unicode_len()), b) < 0 {
            return failure("minLength");
        }
    }
    Ok(())
}

/// `maxLength`: a string must not hold more characters than the bound.
fn validate_max_length(
    instance: &JsonValue,
    value: &JsonValue,
    parent: &Vec<(String, JsonValue)>,
) -> (r: ValidatorResult)
    ensures
        outcome(r) == apply_rule(Keyword::MaxLength, *instance, *value, parent@),
    decreases value, 5nat, 0int,
{
    if let (JsonValue::String(s), JsonValue::Number(b)) = (instance, value) {
        if compare_numbers(b, &count_as_number(s.as_str().unicode_len())) < 0 {
            return failure("maxLength");
        }
    }
    Ok(())
}

/// `minProperties`: an object must not have fewer members than the bound.
fn validate_min_properties(
    instance: &JsonValue,
    value: &JsonValue,
    parent: &Vec<(String, JsonValue)>,
) -> (r: ValidatorResult)
    ensures
        outcome(r) == apply_rule(Keyword::MinProperties, *instance, *value, parent@),
    decreases value, 5nat, 0int,
{
    if let (JsonValue::Object(im), JsonValue::Number(b)) = (instance, value) {
        if compare_numbers(&count_as_number(im.len()), b) < 0 {
            return failure("minProperties");
        }
    }
    Ok(())
}

/// `maxProperties`: an object must not have more members than the bound.
fn validate_max_properties(
    instance: &JsonValue,
    value: &JsonValue,
    parent: &Vec<(String, JsonValue)>,
) -> (r: ValidatorResult)
    ensures
        outcome(r) == apply_rule(Keyword::MaxProperties, *instance, *value, parent@),
    decreases value, 5nat, 0int,
{
    if let (JsonValue::Object(im), JsonValue::Number(b)) = (instance, value) {
        if compare_numbers(b, &count_as_number(im.len())) < 0 {
            return failure("maxProperties");
        }
    }
    Ok(())
}

/// `const`: the instance must equal the value.
fn validate_const(
    instance: &JsonValue,
    value: &JsonValue,
    parent: &Vec<(String, JsonValue)>,
) -> (r: ValidatorResult)
    ensures
        outcome(r) == apply_rule(Keyword::Const, *instance, *value, parent@),
    decreases value, 5nat, 0int,
{
    if !json_equal(instance, value) {
        return failure("Invalid const");
    }
    Ok(())
}

/// `enum`: the instance must equal one of the listed values.
fn validate_enum(
    instance: &JsonValue,
    value: &JsonValue,
    parent: &Vec<(String, JsonValue)>,
) -> (r: ValidatorResult)
    ensures
        outcome(r) == apply_rule(Keyword::Enum, *instance, *value, parent@),
    decreases value, 5nat, 0int,
{
    if let JsonValue::Array(vs) = value {
        let mut t: usize = 0;
        while t < vs.len()
            invariant
                *value == JsonValue::Array(*vs),
                t <= vs@.len(),
                forall|u: int| 0 <= u < t ==> !json_eq(#[trigger] vs@[u], *instance),
            decreases vs@.len() - t,
        {
            if json_equal(&vs[t], instance) {
                return Ok(());
            }
            t = t + 1;
        }
        return failure("enum");
    }
    Ok(())
}

/// Whether no two elements of `xs` are structurally equal.
pub fn has_unique_elements(xs: &Vec<JsonValue>) -> (r: bool)
    ensures
        r == !has_duplicates(xs@),
{
    let mut j: usize = 0;
    while j < xs.len()
        invariant
            j <= xs@.len(),
            forall|a: int, b: int| 0 <= a < b < j ==> !json_eq(#[trigger] xs@[a], #[trigger] xs@[b]),
        decreases xs@.len() - j,
    {
        let mut i: usize = 0;
        while i < j
            invariant
                i <= j < xs@.len(),
                forall|a: int, b: int|
                    0 <= a < b < j ==> !json_eq(#[trigger] xs@[a], #[trigger] xs@[b]),
                forall|a: int| 0 <= a < i ==> !json_eq(#[trigger] xs@[a], xs@[j as int]),
            decreases j - i,
        {
            if json_equal(&xs[i], &xs[j]) {
                return false;
            }
            i = i + 1;
        }
        j = j + 1;
    }
    true
}

/// `uniqueItems`: when true, no two elements may be equal.
fn validate_unique_items(
    instance: &JsonValue,
    value: &JsonValue,
    parent: &Vec<(String, JsonValue)>,
) -> (r: ValidatorResult)
    ensures
        outcome(r) == apply_rule(Keyword::UniqueItems, *instance, *value, parent@),
    decreases value, 5nat, 0int,
{
    if let (JsonValue::Array(xs), JsonValue::Bool(true)) = (instance, value) {
        if !has_unique_elements(xs) {
            return failure("uniqueItems");
        }
    }
    Ok(())
}

/// Whether `instance` is of the type that `t` names.
fn single_type_ok(instance: &JsonValue, t: &JsonValue) -> (r: bool)
    ensures
        r == single_type_matches(*instance, *t),
{
    match t {
        JsonValue::String(name) => {
            if is_named(name, "array") {
                matches!(instance, JsonValue::Array(_))
            } else if is_named(name, "object") {
                matches!(instance, JsonValue::Object(_))
            } else if is_named(name, "null") {
                matches!(instance, JsonValue::Null)
            } else if is_named(name, "number") {
                matches!(instance, JsonValue::Number(_))
            } else if is_named(name, "string") {
                matches!(instance, JsonValue::String(_))
            } else if is_named(name, "integer") {
                match instance {
                    JsonValue::Number(n) => n.is_integral(),
                    _ => false,
                }
            } else if is_named(name, "boolean") {
                matches!(instance, JsonValue::Bool(_))
            } else {
                true
            }
        },
        _ => true,
    }
}

/// `type`: the instance must be of the named type, or of one of the named types.
fn validate_type(
    instance: &JsonValue,
    value: &JsonValue,
    parent: &Vec<(String, JsonValue)>,
) -> (r: ValidatorResult)
    ensures
        outcome(r) == apply_rule(Keyword::Type, *instance, *value, parent@),
    decreases value, 5nat, 0int,
{
    match value {
        JsonValue::Array(ts) => {
            let mut t: usize = 0;
            while t < ts.len()
                invariant
                    *value == JsonValue::Array(*ts),
                    t <= ts@.len(),
                    forall|u: int|
                        0 <= u < t ==> !single_type_matches(*instance, #[trigger] ts@[u]),
                decreases ts@.len() - t,
            {
                if single_type_ok(instance, &ts[t]) {
                    return Ok(());
                }
                t = t + 1;
            }
            failure("type")
        },
        _ => {
            if single_type_ok(instance, value) {
                Ok(())
            } else {
                failure("type")
            }
        },
    }
}

/// `required`: every listed name must be a key of the object.
fn validate_required(
    instance: &JsonValue,
    value: &JsonValue,
    parent: &Vec<(String, JsonValue)>,
) -> (r: ValidatorResult)
    ensures
        outcome(r) == apply_rule(Keyword::Required, *instance, *value, parent@),
    decreases value, 5nat, 0int,
{
    if let (JsonValue::Object(im), JsonValue::Array(ks)) = (instance, value) {
        let mut t: usize = 0;
        while t < ks.len()
            invariant
                *instance == JsonValue::Object(*im),
                *value == JsonValue::Array(*ks),
                t <= ks@.len(),
                first_missing(im@, ks@) == first_missing_from(im@, ks@, t as int),
            decreases ks@.len() - t,
        {
            if let JsonValue::String(k) = &ks[t] {
                if find_member(im, k).is_none() {
                    let msg = String::from_str("required property '").concat(k.as_str()).concat(
                        "' missing",
                    );
                    return failure(msg.as_str());
                }
            }
            t = t + 1;
        }
    }
    Ok(())
}

/// `properties`: each member named by the value must satisfy its subschema.
fn validate_properties(
    instance: &JsonValue,
    value: &JsonValue,
    parent: &Vec<(String, JsonValue)>,
) -> (r: ValidatorResult)
    ensures
        outcome(r) == apply_rule(Keyword::Properties, *instance, *value, parent@),
    decreases value, 5nat, 0int,
{
    if let (JsonValue::Object(im), JsonValue::Object(vm)) = (instance, value) {
        let mut j: usize = 0;
        while j < vm.len()
            invariant
                *instance == JsonValue::Object(*im),
                *value == JsonValue::Object(*vm),
                j <= vm@.len(),
                properties_from(im@, *value, 0) == properties_from(im@, *value, j as int),
            decreases vm@.len() - j,
        {
            if let Some(x) = find_member(im, &vm[j].0) {
                proof {
                    lemma_member_decreases(*value, j as int);
                }
                let r = descend(&im[x].1, &vm[j].1, Some(&vm[j].0), Some(&vm[j].0));
                if r.is_err() {
                    return r;
                }
            }
            j = j + 1;
        }
    }
    Ok(())
}

/// `propertyNames`: every key, as a string, must satisfy the subschema.
fn validate_property_names(
    instance: &JsonValue,
    value: &JsonValue,
    parent: &Vec<(String, JsonValue)>,
) -> (r: ValidatorResult)
    ensures
        outcome(r) == apply_rule(Keyword::PropertyNames, *instance, *value, parent@),
    decreases value, 5nat, 0int,
{
    if let JsonValue::Object(im) = instance {
        let mut x: usize = 0;
        while x < im.len()
            invariant
                *instance == JsonValue::Object(*im),
                x <= im@.len(),
                property_names_from(im@, *value, 0) == property_names_from(
                    im@,
                    *value,
                    x as int,
                ),
            decreases im@.len() - x,
        {
            let name = JsonValue::String(im[x].0.clone());
            let r = descend(&name, value, Some(&im[x].0), None);
            if r.is_err() {
                return r;
            }
            x = x + 1;
        }
    }
    Ok(())
}

/// The message of a pattern that did not compile.
fn fault_text(f: RegexFailure) -> (r: String)
    ensures
        r@ == fault_message(f@),
{
    match f {
        RegexFailure::Syntax(m) => m,
        RegexFailure::TooBig => String::from_str("regex too big"),
        RegexFailure::Other => String::from_str("Unknown regular expression error"),
    }
}

/// `patternProperties`: every member whose key a pattern matches must satisfy
/// that pattern's subschema.
fn validate_pattern_properties(
    instance: &JsonValue,
    value: &JsonValue,
    parent: &Vec<(String, JsonValue)>,
) -> (r: ValidatorResult)
    ensures
        outcome(r) == apply_rule(Keyword::PatternProperties, *instance, *value, parent@),
    decreases value, 5nat, 0int,
{
    if let (JsonValue::Object(im), JsonValue::Object(vm)) = (instance, value) {
        let mut j: usize = 0;
        while j < vm.len()
            invariant
                *instance == JsonValue::Object(*im),
                *value == JsonValue::Object(*vm),
                j <= vm@.len(),
                pattern_properties_from(im@, *value, 0) == pattern_properties_from(
                    im@,
                    *value,
                    j as int,
                ),
            decreases vm@.len() - j,
        {
            let re = match CompiledPattern::compile(vm[j].0.as_str()) {
                Ok(re) => re,
                Err(f) => {
                    let msg = fault_text(f);
                    return failure(msg.as_str());
                },
            };
            proof {
                lemma_member_decreases(*value, j as int);
            }
            let sub = &vm[j].1;
            let mut x: usize = 0;
            while x < im.len()
                invariant
                    regex_compile_fault(vm@[j as int].0@) is None,
                    *instance == JsonValue::Object(*im),
                    pattern_properties_from(im@, *value, 0) == pattern_properties_from(im@, *value, j as int),
                    *value == JsonValue::Object(*vm),
                    j < vm@.len(),
                    *sub == vm@[j as int].1,
                    re.source() == vm@[j as int].0@,
                    decreases_to!(*value => *sub),
                    x <= im@.len(),
                    pattern_members_from(im@, vm@[j as int].0@, *sub, 0) == pattern_members_from(
                        im@,
                        vm@[j as int].0@,
                        *sub,
                        x as int,
                    ),
                decreases im@.len() - x,
            {
                if re.is_match(im[x].0.as_str()) {
                    let r = descend(&im[x].1, sub, Some(&im[x].0), Some(&vm[j].0));
                    if r.is_err() {
                        return r;
                    }
                }
                x = x + 1;
            }
            j = j + 1;
        }
    }
    Ok(())
}

/// Compiles the keys of `pm`, in order, stopping at the first that does not compile.
fn compile_all(pm: &Vec<(String, JsonValue)>) -> (r: Result<Vec<CompiledPattern>, RegexFailure>)
    ensures
        match r {
            Ok(cs) => {
                &&& first_fault_from(pm@, 0) is None
                &&& cs@.len() == pm@.len()
                &&& forall|j: int| 0 <= j < pm@.len() ==> #[trigger] cs@[j].source() == pm@[j].0@
            },
            Err(f) => first_fault_from(pm@, 0) == Some(f@),
        },
{
    let mut cs: Vec<CompiledPattern> = Vec::new();
    let mut j: usize = 0;
    while j < pm.len()
        invariant
            j <= pm@.len(),
            cs@.len() == j,
            forall|k: int| 0 <= k < j ==> #[trigger] cs@[k].source() == pm@[k].0@,
            first_fault_from(pm@, 0) == first_fault_from(pm@, j as int),
        decreases pm@.len() - j,
    {
        match CompiledPattern::compile(pm[j].0.as_str()) {
            Ok(c) => cs.push(c),
            Err(f) => {
                return Err(f);
            },
        }
        j = j + 1;
    }
    Ok(cs)
}

/// Whether `key` is not named by `props` and matched by none of `patterns`.
fn is_uncovered(
    key: &String,
    props: &Vec<(String, JsonValue)>,
    pm: &Vec<(String, JsonValue)>,
    patterns: &Vec<CompiledPattern>,
) -> (r: bool)
    requires
        patterns@.len() == pm@.len(),
        forall|j: int| 0 <= j < pm@.len() ==> #[trigger] patterns@[j].source() == pm@[j].0@,
    ensures
        r == (find_key(props@, key@) is None && !some_pattern_matches(pm@, key@)),
{
    if find_member(props, key).is_some() {
        return false;
    }
    let mut j: usize = 0;
    while j < patterns.len()
        invariant
            j <= patterns@.len(),
            patterns@.len() == pm@.len(),
            forall|k: int| 0 <= k < pm@.len() ==> #[trigger] patterns@[k].source() == pm@[k].0@,
            forall|k: int| 0 <= k < j ==> !regex_is_match(#[trigger] pm@[k].0@, key@),
        decreases patterns@.len() - j,
    {
        if patterns[j].is_match(key.as_str()) {
            assert(regex_is_match(pm@[j as int].0@, key@));
            return false;
        }
        j = j + 1;
    }
    true
}

/// The members of a sibling keyword's object value: `empty` where the
/// keyword is absent, `None` where its value is not an object.
fn sibling_object<'a>(
    parent: &'a Vec<(String, JsonValue)>,
    key: &str,
    empty: &'a Vec<(String, JsonValue)>,
) -> (r: Option<&'a Vec<(String, JsonValue)>>)
    requires
        empty@.len() == 0,
    ensures
        match r {
            Some(m) => sibling_members(parent@, key@) == Some(m@),
            None => sibling_members(parent@, key@) is None,
        },
{
    let k = String::from_str(key);
    match find_member(parent, &k) {
        None => {
            assert(empty@ =~= Seq::<(String, JsonValue)>::empty());
            Some(empty)
        },
        Some(x) => match &parent[x].1 {
            JsonValue::Object(m) => Some(m),
            _ => None,
        },
    }
}

/// `additionalProperties`: members that neither `properties` nor
/// `patternProperties` covers must satisfy the subschema, or must not exist
/// where the value is `false`.
fn validate_additional_properties(
    instance: &JsonValue,
    value: &JsonValue,
    parent: &Vec<(String, JsonValue)>,
) -> (r: ValidatorResult)
    ensures
        outcome(r) == apply_rule(Keyword::AdditionalProperties, *instance, *value, parent@),
    decreases value, 5nat, 0int,
{
    let im = match instance {
        JsonValue::Object(im) => im,
        _ => {
            return Ok(());
        },
    };
    let forbidden = match value {
        JsonValue::Object(_) => false,
        JsonValue::Bool(b) => {
            if *b {
                return Ok(());
            }
            true
        },
        _ => {
            return Ok(());
        },
    };
    let empty: Vec<(String, JsonValue)> = Vec::new();
    let props = sibling_object(parent, "properties", &empty);
    let pm = sibling_object(parent, "patternProperties", &empty);
    let filtered = props.is_some() && pm.is_some();
    let patterns = if filtered {
        match compile_all(pm.unwrap()) {
            Ok(cs) => cs,
            Err(f) => {
                let msg = fault_text(f);
                return failure(msg.as_str());
            },
        }
    } else {
        Vec::new()
    };
    let mut x: usize = 0;
    while x < im.len()
        invariant
            extras_fault(parent@) is None,
            forbidden ==> *value == JsonValue::Bool(false),
            filtered == (props is Some && pm is Some),
            forbidden == (*value is Bool),
            *value is Bool || *value is Object,
            *instance == JsonValue::Object(*im),
            x <= im@.len(),
            filtered == extras_filtered(parent@),
            filtered ==> props.unwrap()@ == sibling_members(parent@, "properties"@)->Some_0,
            filtered ==> pm.unwrap()@ == sibling_members(parent@, "patternProperties"@)->Some_0,
            filtered ==> patterns@.len() == pm.unwrap()@.len(),
            filtered ==> forall|j: int|
                0 <= j < pm.unwrap()@.len() ==> #[trigger] patterns@[j].source()
                    == pm.unwrap()@[j].0@,
            forbidden ==> first_extra_from(im@, parent@, 0) == first_extra_from(
                im@,
                parent@,
                x as int,
            ),
            !forbidden ==> additional_properties_from(im@, *value, parent@, 0)
                == additional_properties_from(im@, *value, parent@, x as int),
        decreases im@.len() - x,
    {
        let extra = if filtered {
            is_uncovered(&im[x].0, props.unwrap(), pm.unwrap(), &patterns)
        } else {
            true
        };
        if extra {
            if forbidden {
                let msg = String::from_str("Additional properties are not allowed ('").concat(
                    im[x].0.as_str(),
                ).concat("' was unexpected)");
                return failure(msg.as_str());
            }
            let r = descend(&im[x].1, value, Some(&im[x].0), None);
            if r.is_err() {
                return r;
            }
        }
        x = x + 1;
    }
    Ok(())
}

/// `items`: one schema for every element, or one per position.
fn validate_items(
    instance: &JsonValue,
    value: &JsonValue,
    parent: &Vec<(String, JsonValue)>,
) -> (r: ValidatorResult)
    ensures
        outcome(r) == apply_rule(Keyword::Items, *instance, *value, parent@),
    decreases value, 5nat, 0int,
{
    let xs = match instance {
        JsonValue::Array(xs) => xs,
        _ => {
            return Ok(());
        },
    };
    match value {
        JsonValue::Bool(b) => {
            if !*b && xs.len() > 0 {
                let mut e = ValidationError::new("not");
                e.push_schema(String::from_str("not"));
                e.push_instance(decimal_text(0));
                return Err(e);
            }
            Ok(())
        },
        JsonValue::Object(_) => {
            let mut x: usize = 0;
            while x < xs.len()
                invariant
                    *instance == JsonValue::Array(*xs),
                    *value is Object,
                    x <= xs@.len(),
                    items_each_from(xs@, *value, 0) == items_each_from(xs@, *value, x as int),
                decreases xs@.len() - x,
            {
                let index = decimal_text(x);
                let r = descend(&xs[x], value, Some(&index), None);
                if r.is_err() {
                    return r;
                }
                x = x + 1;
            }
            Ok(())
        },
        JsonValue::Array(subs) => {
            let mut x: usize = 0;
            while x < xs.len() && x < subs.len()
                invariant
                    *instance == JsonValue::Array(*xs),
                    *value == JsonValue::Array(*subs),
                    x <= xs@.len(),
                    items_tuple_from(xs@, *value, 0) == items_tuple_from(xs@, *value, x as int),
                decreases xs@.len() - x,
            {
                proof {
                    lemma_element_decreases(*value, x as int);
                }
                let index = decimal_text(x);
                let r = descend(&xs[x], &subs[x], Some(&index), Some(&index));
                if r.is_err() {
                    return r;
                }
                x = x + 1;
            }
            Ok(())
        },
        _ => Ok(()),
    }
}

/// `additionalItems`: under positional `items`, the elements past them must
/// satisfy the subschema, or must not exist where the value is `false`.
fn validate_additional_items(
    instance: &JsonValue,
    value: &JsonValue,
    parent: &Vec<(String, JsonValue)>,
) -> (r: ValidatorResult)
    ensures
        outcome(r) == apply_rule(Keyword::AdditionalItems, *instance, *value, parent@),
    decreases value, 5nat, 0int,
{
    let xs = match instance {
        JsonValue::Array(xs) => xs,
        _ => {
            return Ok(());
        },
    };
    let items_key = String::from_str("items");
    let n = match find_member(parent, &items_key) {
        Some(i) => match &parent[i].1 {
            JsonValue::Array(subs) => subs.len(),
            _ => {
                return Ok(());
            },
        },
        None => {
            return Ok(());
        },
    };
    match value {
        JsonValue::Object(_) => {
            let mut x: usize = n;
            while x < xs.len()
                invariant
                    *instance == JsonValue::Array(*xs),
                    *value is Object,
                    tuple_length(parent@) == Some(n as nat),
                    n <= x,
                    additional_items_from(xs@, *value, n as int) == additional_items_from(
                        xs@,
                        *value,
                        x as int,
                    ),
                decreases xs@.len() - x,
            {
                let index = decimal_text(x);
                let r = descend(&xs[x], value, Some(&index), None);
                if r.is_err() {
                    return r;
                }
                x = x + 1;
            }
            Ok(())
        },
        JsonValue::Bool(b) => {
            if !*b && xs.len() > n {
                return failure("Additional items are not allowed");
            }
            Ok(())
        },
        _ => Ok(()),
    }
}

/// `contains`: some element must satisfy the subschema.
fn validate_contains(
    instance: &JsonValue,
    value: &JsonValue,
    parent: &Vec<(String, JsonValue)>,
) -> (r: ValidatorResult)
    ensures
        outcome(r) == apply_rule(Keyword::Contains, *instance, *value, parent@),
    decreases value, 5nat, 0int,
{
    if let JsonValue::Array(xs) = instance {
        let mut x: usize = 0;
        while x < xs.len()
            invariant
                *instance == JsonValue::Array(*xs),
                x <= xs@.len(),
                some_valid_from(xs@, *value, 0) == some_valid_from(xs@, *value, x as int),
            decreases xs@.len() - x,
        {
            if is_valid(&xs[x], value) {
                return Ok(());
            }
            x = x + 1;
        }
        return failure("Nothing is valid under the given schema");
    }
    Ok(())
}

/// `dependencies`: each entry's schema must hold of the whole object, or
/// each name it lists must be a key.
fn validate_dependencies(
    instance: &JsonValue,
    value: &JsonValue,
    parent: &Vec<(String, JsonValue)>,
) -> (r: ValidatorResult)
    ensures
        outcome(r) == apply_rule(Keyword::Dependencies, *instance, *value, parent@),
    decreases value, 5nat, 0int,
{
    if let (JsonValue::Object(im), JsonValue::Object(vm)) = (instance, value) {
        let mut j: usize = 0;
        while j < vm.len()
            invariant
                *instance == JsonValue::Object(*im),
                *value == JsonValue::Object(*vm),
                j <= vm@.len(),
                dependencies_from(*instance, *value, 0) == dependencies_from(
                    *instance,
                    *value,
                    j as int,
                ),
            decreases vm@.len() - j,
        {
            match &vm[j].1 {
                JsonValue::Bool(b) => {
                    if !*b {
                        let mut e = ValidationError::new("not");
                        e.push_schema(String::from_str("not"));
                        e.push_schema(vm[j].0.clone());
                        return Err(e);
                    }
                },
                JsonValue::Object(_) => {
                    proof {
                        lemma_member_decreases(*value, j as int);
                    }
                    let r = descend(instance, &vm[j].1, None, Some(&vm[j].0));
                    if r.is_err() {
                        return r;
                    }
                },
                JsonValue::String(k) => {
                    if find_member(im, k).is_none() {
                        return failure("dependency");
                    }
                },
                JsonValue::Array(ks) => {
                    let mut t: usize = 0;
                    while t < ks.len()
                        invariant
                            *instance == JsonValue::Object(*im),
                            *value == JsonValue::Object(*vm),
                            j < vm@.len(),
                            vm@[j as int].1 == JsonValue::Array(*ks),
                            dependencies_from(*instance, *value, 0) == dependencies_from(*instance, *value, j as int),
                            t <= ks@.len(),
                            forall|u: int|
                                0 <= u < t ==> !(#[trigger] ks@[u] is String && find_key(
                                    im@,
                                    ks@[u]->String_0@,
                                ) is None),
                        decreases ks@.len() - t,
                    {
                        if let JsonValue::String(k) = &ks[t] {
                            if find_member(im, k).is_none() {
                                return failure("dependency");
                            }
                        }
                        t = t + 1;
                    }
                },
                _ => {},
            }
            j = j + 1;
        }
    }
    Ok(())
}

/// `allOf`: every subschema must hold.
fn validate_all_of(
    instance: &JsonValue,
    value: &JsonValue,
    parent: &Vec<(String, JsonValue)>,
) -> (r: ValidatorResult)
    ensures
        outcome(r) == apply_rule(Keyword::AllOf, *instance, *value, parent@),
    decreases value, 5nat, 0int,
{
    if let JsonValue::Array(subs) = value {
        let mut t: usize = 0;
        while t < subs.len()
            invariant
                *value == JsonValue::Array(*subs),
                t <= subs@.len(),
                all_of_from(*instance, *value, 0) == all_of_from(*instance, *value, t as int),
            decreases subs@.len() - t,
        {
            proof {
                lemma_element_decreases(*value, t as int);
            }
            match run_normalized(instance, &subs[t]) {
                Ok(()) => {},
                Err(e) => {
                    let mut e = e;
                    e.push_schema(decimal_text(t));
                    return Err(e);
                },
            }
            t = t + 1;
        }
    }
    Ok(())
}

/// `anyOf`: some subschema must hold, unless there are none.
fn validate_any_of(
    instance: &JsonValue,
    value: &JsonValue,
    parent: &Vec<(String, JsonValue)>,
) -> (r: ValidatorResult)
    ensures
        outcome(r) == apply_rule(Keyword::AnyOf, *instance, *value, parent@),
    decreases value, 5nat, 0int,
{
    if let JsonValue::Array(subs) = value {
        if subs.len() == 0 {
            return Ok(());
        }
        let mut t: usize = 0;
        while t < subs.len()
            invariant
                *value == JsonValue::Array(*subs),
                t <= subs@.len(),
                any_of_from(*instance, *value, 0) == any_of_from(*instance, *value, t as int),
            decreases subs@.len() - t,
        {
            proof {
                lemma_element_decreases(*value, t as int);
            }
            if run_normalized(instance, &subs[t]).is_ok() {
                return Ok(());
            }
            t = t + 1;
        }
        return failure("anyOf");
    }
    Ok(())
}

/// `oneOf`: exactly one subschema must hold.
fn validate_one_of(
    instance: &JsonValue,
    value: &JsonValue,
    parent: &Vec<(String, JsonValue)>,
) -> (r: ValidatorResult)
    ensures
        outcome(r) == apply_rule(Keyword::OneOf, *instance, *value, parent@),
    decreases value, 5nat, 0int,
{
    if let JsonValue::Array(subs) = value {
        let mut passing: usize = 0;
        let mut t: usize = 0;
        while t < subs.len()
            invariant
                *value == JsonValue::Array(*subs),
                t <= subs@.len(),
                passing <= t,
                passing_from(*instance, *value, 0) == passing + passing_from(
                    *instance,
                    *value,
                    t as int,
                ),
            decreases subs@.len() - t,
        {
            proof {
                lemma_element_decreases(*value, t as int);
            }
            if run_normalized(instance, &subs[t]).is_ok() {
                passing = passing + 1;
            }
            t = t + 1;
        }
        if passing != 1 {
            return failure("oneOf");
        }
    }
    Ok(())
}

/// `not`: the subschema must fail.
fn validate_not(
    instance: &JsonValue,
    value: &JsonValue,
    parent: &Vec<(String, JsonValue)>,
) -> (r: ValidatorResult)
    ensures
        outcome(r) == apply_rule(Keyword::Not, *instance, *value, parent@),
    decreases value, 5nat, 0int,
{
    if run_validators(instance, value).is_ok() {
        return failure("not");
    }
    Ok(())
}

} // verus!
