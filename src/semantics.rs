//! What validation returns, as spec functions over the value tree. `None`
//! is success; `Some(e)` is the first failure met, in keyword order.
use crate::error::{error_of, ErrorView};
use crate::number::{multiple_of_holds, num_eq, num_lt, rounded_to_binary64, JsonNumber};
use crate::pattern::{regex_compile_fault, regex_is_match, RegexFault};
use crate::value::{find_key, json_eq, JsonValue};
use vstd::prelude::*;

verus! {

/// An object's members.
pub type Members = Seq<(String, JsonValue)>;

/// The keywords that have a rule.
#[derive(PartialEq, Eq, Structural, Clone, Copy, Debug)]
pub enum Keyword {
    PatternProperties,
    PropertyNames,
    AdditionalProperties,
    Items,
    AdditionalItems,
    Const,
    Contains,
    ExclusiveMinimum,
    ExclusiveMaximum,
    Minimum,
    Maximum,
    MultipleOf,
    MinItems,
    MaxItems,
    UniqueItems,
    MinLength,
    MaxLength,
    Dependencies,
    Enum,
    Type,
    Properties,
    Required,
    MinProperties,
    MaxProperties,
    AllOf,
    AnyOf,
    OneOf,
    Not,
}

/// The keyword named `name`, if it has a rule.
pub open spec fn keyword_of(name: Seq<char>) -> Option<Keyword> {
    if name == "patternProperties"@ {
        Some(Keyword::PatternProperties)
    } else if name == "propertyNames"@ {
        Some(Keyword::PropertyNames)
    } else if name == "additionalProperties"@ {
        Some(Keyword::AdditionalProperties)
    } else if name == "items"@ {
        Some(Keyword::Items)
    } else if name == "additionalItems"@ {
        Some(Keyword::AdditionalItems)
    } else if name == "const"@ {
        Some(Keyword::Const)
    } else if name == "contains"@ {
        Some(Keyword::Contains)
    } else if name == "exclusiveMinimum"@ {
        Some(Keyword::ExclusiveMinimum)
    } else if name == "exclusiveMaximum"@ {
        Some(Keyword::ExclusiveMaximum)
    } else if name == "minimum"@ {
        Some(Keyword::Minimum)
    } else if name == "maximum"@ {
        Some(Keyword::Maximum)
    } else if name == "multipleOf"@ {
        Some(Keyword::MultipleOf)
    } else if name == "minItems"@ {
        Some(Keyword::MinItems)
    } else if name == "maxItems"@ {
        Some(Keyword::MaxItems)
    } else if name == "uniqueItems"@ {
        Some(Keyword::UniqueItems)
    } else if name == "minLength"@ {
        Some(Keyword::MinLength)
    } else if name == "maxLength"@ {
        Some(Keyword::MaxLength)
    } else if name == "dependencies"@ {
        Some(Keyword::Dependencies)
    } else if name == "enum"@ {
        Some(Keyword::Enum)
    } else if name == "type"@ {
        Some(Keyword::Type)
    } else if name == "properties"@ {
        Some(Keyword::Properties)
    } else if name == "required"@ {
        Some(Keyword::Required)
    } else if name == "minProperties"@ {
        Some(Keyword::MinProperties)
    } else if name == "maxProperties"@ {
        Some(Keyword::MaxProperties)
    } else if name == "allOf"@ {
        Some(Keyword::AllOf)
    } else if name == "anyOf"@ {
        Some(Keyword::AnyOf)
    } else if name == "oneOf"@ {
        Some(Keyword::OneOf)
    } else if name == "not"@ {
        Some(Keyword::Not)
    } else {
        None
    }
}

/// The decimal digit `d`.
pub open spec fn digit_char(d: nat) -> char {
    if d == 0 {
        '0'
    } else if d == 1 {
        '1'
    } else if d == 2 {
        '2'
    } else if d == 3 {
        '3'
    } else if d == 4 {
        '4'
    } else if d == 5 {
        '5'
    } else if d == 6 {
        '6'
    } else if d == 7 {
        '7'
    } else if d == 8 {
        '8'
    } else {
        '9'
    }
}

/// `n` in decimal, without leading zeros.
pub open spec fn decimal(n: nat) -> Seq<char>
    decreases n,
{
    if n < 10 {
        seq![digit_char(n)]
    } else {
        decimal(n / 10).push(digit_char(n % 10))
    }
}

/// The failure of the schema that rejects everything, `{"not": {}}`.
pub open spec fn rejection() -> ErrorView {
    error_of("not"@).with_schema("not"@)
}

/// A failure from below, given the path segments of this level.
pub open spec fn extend(
    r: Option<ErrorView>,
    instance_key: Option<Seq<char>>,
    schema_key: Option<Seq<char>>,
) -> Option<ErrorView> {
    match r {
        None => None,
        Some(e) => {
            let e1 = match instance_key {
                Some(k) => e.with_instance(k),
                None => e,
            };
            Some(
                match schema_key {
                    Some(k) => e1.with_schema(k),
                    None => e1,
                },
            )
        },
    }
}

/// The number of members or elements of a container, else zero.
pub open spec fn len_of(v: JsonValue) -> int {
    match v {
        JsonValue::Array(xs) => xs@.len() as int,
        JsonValue::Object(ms) => ms@.len() as int,
        _ => 0,
    }
}

/// A length as a number.
pub open spec fn count_number(n: nat) -> JsonNumber {
    JsonNumber { negative: false, mantissa: n as u64, exponent: 0, binary64: false }
}

/// The message of a pattern that did not compile.
pub open spec fn fault_message(f: RegexFault) -> Seq<char> {
    match f {
        RegexFault::Syntax(m) => m,
        RegexFault::TooBig => "regex too big"@,
        RegexFault::Other => "Unknown regular expression error"@,
    }
}

/// Validation of `instance` against `schema`.
pub open spec fn validate(instance: JsonValue, schema: JsonValue) -> Option<ErrorView>
    decreases schema, 3nat, 0int,
{
    match schema {
        JsonValue::Bool(b) => if b {
            None
        } else {
            Some(error_of("False schema always fails"@))
        },
        JsonValue::Object(ms) => if find_key(ms@, "$ref"@) is Some {
            None
        } else {
            validate_keywords(instance, schema, 0)
        },
        _ => Some(error_of("Invalid schema"@)),
    }
}

/// Validation against the keywords of the object `schema` from the `i`-th on.
pub open spec fn validate_keywords(instance: JsonValue, schema: JsonValue, i: int) -> Option<
    ErrorView,
>
    decreases schema, 2nat, len_of(schema) - i,
{
    match schema {
        JsonValue::Object(ms) => if 0 <= i < ms@.len() {
            let rest = validate_keywords(instance, schema, i + 1);
            match keyword_of(ms@[i].0@) {
                Some(k) => match apply_rule(k, instance, ms@[i].1, ms@) {
                    Some(e) => Some(e.with_schema(ms@[i].0@)),
                    None => rest,
                },
                None => rest,
            }
        } else {
            None
        },
        _ => None,
    }
}

/// Validation against a schema whose boolean forms are read as `{}` and
/// `{"not": {}}`.
pub open spec fn validate_normalized(instance: JsonValue, schema: JsonValue) -> Option<ErrorView>
    decreases schema, 4nat, 0int,
{
    match schema {
        JsonValue::Bool(b) => if b {
            None
        } else {
            Some(rejection())
        },
        _ => validate(instance, schema),
    }
}

/// A failure with `message` when `failed` holds.
pub open spec fn fail_if(failed: bool, message: Seq<char>) -> Option<ErrorView> {
    if failed {
        Some(error_of(message))
    } else {
        None
    }
}

/// The rule of keyword `k`, with the keyword's value and the enclosing schema
/// object's members.
pub open spec fn apply_rule(k: Keyword, instance: JsonValue, value: JsonValue, parent: Members) -> Option<
    ErrorView,
>
    decreases value, 5nat, 0int,
{
    match k {
        Keyword::PatternProperties => match (instance, value) {
            (JsonValue::Object(im), JsonValue::Object(_)) => pattern_properties_from(
                im@,
                value,
                0,
            ),
            _ => None,
        },
        Keyword::PropertyNames => match instance {
            JsonValue::Object(im) => property_names_from(im@, value, 0),
            _ => None,
        },
        Keyword::AdditionalProperties => match instance {
            JsonValue::Object(im) => match value {
                JsonValue::Object(_) => match extras_fault(parent) {
                    Some(f) => Some(error_of(fault_message(f))),
                    None => additional_properties_from(im@, value, parent, 0),
                },
                JsonValue::Bool(false) => match extras_fault(parent) {
                    Some(f) => Some(error_of(fault_message(f))),
                    None => match first_extra_from(im@, parent, 0) {
                        Some(x) => Some(error_of(additional_message(im@[x].0@))),
                        None => None,
                    },
                },
                _ => None,
            },
            _ => None,
        },
        Keyword::Items => match instance {
            JsonValue::Array(xs) => match value {
                JsonValue::Bool(b) => if !b && xs@.len() > 0 {
                    Some(rejection().with_instance(decimal(0)))
                } else {
                    None
                },
                JsonValue::Object(_) => items_each_from(xs@, value, 0),
                JsonValue::Array(_) => items_tuple_from(xs@, value, 0),
                _ => None,
            },
            _ => None,
        },
        Keyword::AdditionalItems => match instance {
            JsonValue::Array(xs) => match tuple_length(parent) {
                Some(n) => match value {
                    JsonValue::Object(_) => additional_items_from(xs@, value, n as int),
                    JsonValue::Bool(b) => fail_if(
                        !b && xs@.len() > n,
                        "Additional items are not allowed"@,
                    ),
                    _ => None,
                },
                None => None,
            },
            _ => None,
        },
        Keyword::Const => fail_if(!json_eq(instance, value), "Invalid const"@),
        Keyword::Contains => match instance {
            JsonValue::Array(xs) => fail_if(
                !some_valid_from(xs@, value, 0),
                "Nothing is valid under the given schema"@,
            ),
            _ => None,
        },
        // The numeric bounds compare both sides as binary64 holds them.
        Keyword::ExclusiveMinimum => match (instance, value) {
            (JsonValue::Number(a), JsonValue::Number(b)) => fail_if(
                num_lt(rounded_to_binary64(a), rounded_to_binary64(b)) || num_eq(
                    rounded_to_binary64(a),
                    rounded_to_binary64(b),
                ),
                "exclusiveMinimum"@,
            ),
            _ => None,
        },
        Keyword::ExclusiveMaximum => match (instance, value) {
            (JsonValue::Number(a), JsonValue::Number(b)) => fail_if(
                num_lt(rounded_to_binary64(b), rounded_to_binary64(a)) || num_eq(
                    rounded_to_binary64(a),
                    rounded_to_binary64(b),
                ),
                "exclusiveMaximum"@,
            ),
            _ => None,
        },
        Keyword::Minimum => match (instance, value) {
            (JsonValue::Number(a), JsonValue::Number(b)) => fail_if(
                num_lt(rounded_to_binary64(a), rounded_to_binary64(b)),
                "minimum"@,
            ),
            _ => None,
        },
        Keyword::Maximum => match (instance, value) {
            (JsonValue::Number(a), JsonValue::Number(b)) => fail_if(
                num_lt(rounded_to_binary64(b), rounded_to_binary64(a)),
                "maximum"@,
            ),
            _ => None,
        },
        Keyword::MultipleOf => match (instance, value) {
            (JsonValue::Number(a), JsonValue::Number(b)) => fail_if(
                !multiple_of_holds(a, b),
                "not multipleOf"@,
            ),
            _ => None,
        },
        Keyword::MinItems => match (instance, value) {
            (JsonValue::Array(xs), JsonValue::Number(b)) => fail_if(
                num_lt(count_number(xs@.len()), b),
                "minItems"@,
            ),
            _ => None,
        },
        Keyword::MaxItems => match (instance, value) {
            (JsonValue::Array(xs), JsonValue::Number(b)) => fail_if(
                num_lt(b, count_number(xs@.len())),
                "maxItems"@,
            ),
            _ => None,
        },
        Keyword::UniqueItems => match (instance, value) {
            (JsonValue::Array(xs), JsonValue::Bool(true)) => fail_if(
                has_duplicates(xs@),
                "uniqueItems"@,
            ),
            _ => None,
        },
        Keyword::MinLength => match (instance, value) {
            (JsonValue::String(s), JsonValue::Number(b)) => fail_if(
                num_lt(count_number(s@.len()), b),
                "minLength"@,
            ),
            _ => None,
        },
        Keyword::MaxLength => match (instance, value) {
            (JsonValue::String(s), JsonValue::Number(b)) => fail_if(
                num_lt(b, count_number(s@.len())),
                "maxLength"@,
            ),
            _ => None,
        },
        Keyword::Dependencies => match (instance, value) {
            (JsonValue::Object(_), JsonValue::Object(_)) => dependencies_from(instance, value, 0),
            _ => None,
        },
        Keyword::Enum => match value {
            JsonValue::Array(vs) => fail_if(!some_equal(vs@, instance), "enum"@),
            _ => None,
        },
        Keyword::Type => fail_if(!type_matches(instance, value), "type"@),
        Keyword::Properties => match (instance, value) {
            (JsonValue::Object(im), JsonValue::Object(_)) => properties_from(im@, value, 0),
            _ => None,
        },
        Keyword::Required => match (instance, value) {
            (JsonValue::Object(im), JsonValue::Array(ks)) => match first_missing(im@, ks@) {
                Some(k) => Some(error_of(required_message(k))),
                None => None,
            },
            _ => None,
        },
        Keyword::MinProperties => match (instance, value) {
            (JsonValue::Object(im), JsonValue::Number(b)) => fail_if(
                num_lt(count_number(im@.len()), b),
                "minProperties"@,
            ),
            _ => None,
        },
        Keyword::MaxProperties => match (instance, value) {
            (JsonValue::Object(im), JsonValue::Number(b)) => fail_if(
                num_lt(b, count_number(im@.len())),
                "maxProperties"@,
            ),
            _ => None,
        },
        Keyword::AllOf => match value {
            JsonValue::Array(_) => all_of_from(instance, value, 0),
            _ => None,
        },
        Keyword::AnyOf => match value {
            JsonValue::Array(subs) => fail_if(
                subs@.len() > 0 && !any_of_from(instance, value, 0),
                "anyOf"@,
            ),
            _ => None,
        },
        Keyword::OneOf => match value {
            JsonValue::Array(_) => fail_if(passing_from(instance, value, 0) != 1, "oneOf"@),
            _ => None,
        },
        Keyword::Not => fail_if(validate(instance, value) is None, "not"@),
    }
}

/// `patternProperties`, from the `j`-th pattern of `value` on.
pub open spec fn pattern_properties_from(im: Members, value: JsonValue, j: int) -> Option<
    ErrorView,
>
    decreases value, 4nat, len_of(value) - j,
{
    match value {
        JsonValue::Object(vm) => if 0 <= j < vm@.len() {
            match regex_compile_fault(vm@[j].0@) {
                Some(f) => Some(error_of(fault_message(f))),
                None => match pattern_members_from(im, vm@[j].0@, vm@[j].1, 0) {
                    Some(e) => Some(e),
                    None => pattern_properties_from(im, value, j + 1),
                },
            }
        } else {
            None
        },
        _ => None,
    }
}

/// The members of `im` from the `x`-th on whose keys `pattern` matches,
/// against `sub`.
pub open spec fn pattern_members_from(im: Members, pattern: Seq<char>, sub: JsonValue, x: int) -> Option<
    ErrorView,
>
    decreases sub, 4nat, im.len() - x,
{
    if 0 <= x < im.len() {
        if regex_is_match(pattern, im[x].0@) {
            match extend(validate(im[x].1, sub), Some(im[x].0@), Some(pattern)) {
                Some(e) => Some(e),
                None => pattern_members_from(im, pattern, sub, x + 1),
            }
        } else {
            pattern_members_from(im, pattern, sub, x + 1)
        }
    } else {
        None
    }
}

/// `propertyNames`, from the `x`-th key of the instance on.
pub open spec fn property_names_from(im: Members, value: JsonValue, x: int) -> Option<ErrorView>
    decreases value, 4nat, im.len() - x,
{
    if 0 <= x < im.len() {
        match extend(validate(JsonValue::String(im[x].0), value), Some(im[x].0@), None) {
            Some(e) => Some(e),
            None => property_names_from(im, value, x + 1),
        }
    } else {
        None
    }
}

/// The enclosing schema's value for `key`, where it has one.
pub open spec fn sibling(parent: Members, key: Seq<char>) -> Option<JsonValue> {
    match find_key(parent, key) {
        Some(x) => Some(parent[x].1),
        None => None,
    }
}

/// The members of a sibling keyword's object value: none where the keyword
/// is absent, `None` where its value is not an object.
pub open spec fn sibling_members(parent: Members, key: Seq<char>) -> Option<Members> {
    match sibling(parent, key) {
        None => Some(Seq::empty()),
        Some(JsonValue::Object(m)) => Some(m@),
        Some(_) => None,
    }
}

/// Whether `properties` and `patternProperties` are absent or objects, so
/// that they decide which instance keys are additional.
pub open spec fn extras_filtered(parent: Members) -> bool {
    sibling_members(parent, "properties"@) is Some && sibling_members(
        parent,
        "patternProperties"@,
    ) is Some
}

/// The first pattern of `patternProperties`, from the `j`-th on, that does not compile.
pub open spec fn first_fault_from(pm: Members, j: int) -> Option<RegexFault>
    decreases pm.len() - j,
{
    if 0 <= j < pm.len() {
        match regex_compile_fault(pm[j].0@) {
            Some(f) => Some(f),
            None => first_fault_from(pm, j + 1),
        }
    } else {
        None
    }
}

/// Why the additional keys cannot be told, if a pattern does not compile.
pub open spec fn extras_fault(parent: Members) -> Option<RegexFault> {
    if extras_filtered(parent) {
        first_fault_from(sibling_members(parent, "patternProperties"@)->Some_0, 0)
    } else {
        None
    }
}

/// Whether some pattern of `pm` matches `key`.
pub open spec fn some_pattern_matches(pm: Members, key: Seq<char>) -> bool {
    exists|j: int| 0 <= j < pm.len() && regex_is_match(#[trigger] pm[j].0@, key)
}

/// Whether `key` is covered by neither `properties` nor `patternProperties`.
pub open spec fn is_extra(key: Seq<char>, parent: Members) -> bool {
    if extras_filtered(parent) {
        &&& find_key(sibling_members(parent, "properties"@)->Some_0, key) is None
        &&& !some_pattern_matches(sibling_members(parent, "patternProperties"@)->Some_0, key)
    } else {
        true
    }
}

/// The first additional key's index, from the `x`-th on.
pub open spec fn first_extra_from(im: Members, parent: Members, x: int) -> Option<int>
    decreases im.len() - x,
{
    if 0 <= x < im.len() {
        if is_extra(im[x].0@, parent) {
            Some(x)
        } else {
            first_extra_from(im, parent, x + 1)
        }
    } else {
        None
    }
}

/// The message that names an unexpected key.
pub open spec fn additional_message(key: Seq<char>) -> Seq<char> {
    "Additional properties are not allowed ('"@ + key + "' was unexpected)"@
}

/// `additionalProperties` with a schema, from the `x`-th instance member on.
pub open spec fn additional_properties_from(
    im: Members,
    value: JsonValue,
    parent: Members,
    x: int,
) -> Option<ErrorView>
    decreases value, 4nat, im.len() - x,
{
    if 0 <= x < im.len() {
        let r = if is_extra(im[x].0@, parent) {
            extend(validate(im[x].1, value), Some(im[x].0@), None)
        } else {
            None
        };
        match r {
            Some(e) => Some(e),
            None => additional_properties_from(im, value, parent, x + 1),
        }
    } else {
        None
    }
}

/// `items` with one schema for every element, from the `x`-th on.
pub open spec fn items_each_from(xs: Seq<JsonValue>, value: JsonValue, x: int) -> Option<ErrorView>
    decreases value, 4nat, xs.len() - x,
{
    if 0 <= x < xs.len() {
        match extend(validate(xs[x], value), Some(decimal(x as nat)), None) {
            Some(e) => Some(e),
            None => items_each_from(xs, value, x + 1),
        }
    } else {
        None
    }
}

/// `items` with a schema per position, from the `x`-th on.
pub open spec fn items_tuple_from(xs: Seq<JsonValue>, value: JsonValue, x: int) -> Option<ErrorView>
    decreases value, 4nat, len_of(value) - x,
{
    match value {
        JsonValue::Array(subs) => if 0 <= x < xs.len() && x < subs@.len() {
            match extend(
                validate(xs[x], subs@[x]),
                Some(decimal(x as nat)),
                Some(decimal(x as nat)),
            ) {
                Some(e) => Some(e),
                None => items_tuple_from(xs, value, x + 1),
            }
        } else {
            None
        },
        _ => None,
    }
}

/// The length of a sibling `items` that is an array.
pub open spec fn tuple_length(parent: Members) -> Option<nat> {
    match sibling(parent, "items"@) {
        Some(JsonValue::Array(subs)) => Some(subs@.len()),
        _ => None,
    }
}

/// `additionalItems` with a schema, from the `x`-th element on.
pub open spec fn additional_items_from(xs: Seq<JsonValue>, value: JsonValue, x: int) -> Option<
    ErrorView,
>
    decreases value, 4nat, xs.len() - x,
{
    if 0 <= x < xs.len() {
        match extend(validate(xs[x], value), Some(decimal(x as nat)), None) {
            Some(e) => Some(e),
            None => additional_items_from(xs, value, x + 1),
        }
    } else {
        None
    }
}

/// Whether an element from the `x`-th on is valid against `value`.
pub open spec fn some_valid_from(xs: Seq<JsonValue>, value: JsonValue, x: int) -> bool
    decreases value, 4nat, xs.len() - x,
{
    if 0 <= x < xs.len() {
        validate(xs[x], value) is None || some_valid_from(xs, value, x + 1)
    } else {
        false
    }
}

/// Whether two elements at different positions are structurally equal.
pub open spec fn has_duplicates(xs: Seq<JsonValue>) -> bool {
    exists|i: int, j: int| 0 <= i < j < xs.len() && json_eq(#[trigger] xs[i], #[trigger] xs[j])
}

/// Whether some element of `vs` equals `instance`.
pub open spec fn some_equal(vs: Seq<JsonValue>, instance: JsonValue) -> bool {
    exists|t: int| 0 <= t < vs.len() && json_eq(#[trigger] vs[t], instance)
}

/// Whether `instance` is of the type that `t` names. Other values and
/// unknown names match everything.
pub open spec fn single_type_matches(instance: JsonValue, t: JsonValue) -> bool {
    match t {
        JsonValue::String(name) => if name@ == "array"@ {
            instance is Array
        } else if name@ == "object"@ {
            instance is Object
        } else if name@ == "null"@ {
            instance is Null
        } else if name@ == "number"@ {
            instance is Number
        } else if name@ == "string"@ {
            instance is String
        } else if name@ == "integer"@ {
            instance is Number && instance->Number_0.spec_is_integral()
        } else if name@ == "boolean"@ {
            instance is Bool
        } else {
            true
        },
        _ => true,
    }
}

/// `type`: one name, or an array of which some name matches.
pub open spec fn type_matches(instance: JsonValue, value: JsonValue) -> bool {
    match value {
        JsonValue::Array(ts) => exists|t: int|
            0 <= t < ts@.len() && single_type_matches(instance, #[trigger] ts@[t]),
        _ => single_type_matches(instance, value),
    }
}

/// Whether `names` holds a string that is not a key of `im`.
pub open spec fn names_missing(im: Members, names: Seq<JsonValue>) -> bool {
    exists|t: int|
        0 <= t < names.len() && #[trigger] names[t] is String && find_key(
            im,
            names[t]->String_0@,
        ) is None
}

/// `dependencies`, from the `j`-th entry of `value` on.
pub open spec fn dependencies_from(instance: JsonValue, value: JsonValue, j: int) -> Option<
    ErrorView,
>
    decreases value, 4nat, len_of(value) - j,
{
    match (instance, value) {
        (JsonValue::Object(im), JsonValue::Object(vm)) => if 0 <= j < vm@.len() {
            let property = vm@[j].0@;
            let r = match vm@[j].1 {
                JsonValue::Bool(b) => if b {
                    None
                } else {
                    Some(rejection().with_schema(property))
                },
                JsonValue::Object(_) => extend(validate(instance, vm@[j].1), None, Some(property)),
                JsonValue::String(k) => fail_if(find_key(im@, k@) is None, "dependency"@),
                JsonValue::Array(ks) => fail_if(names_missing(im@, ks@), "dependency"@),
                _ => None,
            };
            match r {
                Some(e) => Some(e),
                None => dependencies_from(instance, value, j + 1),
            }
        } else {
            None
        },
        _ => None,
    }
}

/// `properties`, from the `j`-th entry of `value` on.
pub open spec fn properties_from(im: Members, value: JsonValue, j: int) -> Option<ErrorView>
    decreases value, 4nat, len_of(value) - j,
{
    match value {
        JsonValue::Object(vm) => if 0 <= j < vm@.len() {
            let r = match find_key(im, vm@[j].0@) {
                Some(x) => extend(validate(im[x].1, vm@[j].1), Some(vm@[j].0@), Some(vm@[j].0@)),
                None => None,
            };
            match r {
                Some(e) => Some(e),
                None => properties_from(im, value, j + 1),
            }
        } else {
            None
        },
        _ => None,
    }
}

/// The first name in `names` from the `t`-th on that is a string and not a key of `im`.
pub open spec fn first_missing_from(im: Members, names: Seq<JsonValue>, t: int) -> Option<Seq<char>>
    decreases names.len() - t,
{
    if 0 <= t < names.len() {
        if names[t] is String && find_key(im, names[t]->String_0@) is None {
            Some(names[t]->String_0@)
        } else {
            first_missing_from(im, names, t + 1)
        }
    } else {
        None
    }
}

/// The first required name that is missing.
pub open spec fn first_missing(im: Members, names: Seq<JsonValue>) -> Option<Seq<char>> {
    first_missing_from(im, names, 0)
}

/// The message that names a missing key.
pub open spec fn required_message(key: Seq<char>) -> Seq<char> {
    "required property '"@ + key + "' missing"@
}

/// `allOf`, from the `t`-th subschema on.
pub open spec fn all_of_from(instance: JsonValue, value: JsonValue, t: int) -> Option<ErrorView>
    decreases value, 4nat, len_of(value) - t,
{
    match value {
        JsonValue::Array(subs) => if 0 <= t < subs@.len() {
            match extend(
                validate_normalized(instance, subs@[t]),
                None,
                Some(decimal(t as nat)),
            ) {
                Some(e) => Some(e),
                None => all_of_from(instance, value, t + 1),
            }
        } else {
            None
        },
        _ => None,
    }
}

/// Whether a subschema from the `t`-th on accepts `instance`.
pub open spec fn any_of_from(instance: JsonValue, value: JsonValue, t: int) -> bool
    decreases value, 4nat, len_of(value) - t,
{
    match value {
        JsonValue::Array(subs) => if 0 <= t < subs@.len() {
            validate_normalized(instance, subs@[t]) is None || any_of_from(instance, value, t + 1)
        } else {
            false
        },
        _ => false,
    }
}

/// How many subschemas from the `t`-th on accept `instance`.
pub open spec fn passing_from(instance: JsonValue, value: JsonValue, t: int) -> nat
    decreases value, 4nat, len_of(value) - t,
{
    match value {
        JsonValue::Array(subs) => if 0 <= t < subs@.len() {
            (if validate_normalized(instance, subs@[t]) is None {
                1nat
            } else {
                0nat
            }) + passing_from(instance, value, t + 1)
        } else {
            0
        },
        _ => 0,
    }
}

} // verus!
