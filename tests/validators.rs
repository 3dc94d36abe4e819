use jsonschema_core::validate::decimal_text;
use jsonschema_core::{has_unique_elements, is_valid, run_validators, JsonNumber, JsonValue, ValidationError};

fn whole(n: i64) -> JsonValue {
    JsonValue::Number(JsonNumber::from_i64(n))
}

fn float(x: f64) -> JsonValue {
    JsonValue::Number(JsonNumber::from_binary64_bits(x.to_bits()))
}

fn text(s: &str) -> JsonValue {
    JsonValue::String(s.to_string())
}

fn arr(items: Vec<JsonValue>) -> JsonValue {
    JsonValue::Array(items)
}

fn obj(members: Vec<(&str, JsonValue)>) -> JsonValue {
    JsonValue::Object(members.into_iter().map(|(k, v)| (k.to_string(), v)).collect())
}

fn empty() -> JsonValue {
    obj(vec![])
}

fn fails(instance: &JsonValue, schema: &JsonValue) -> ValidationError {
    match run_validators(instance, schema) {
        Ok(()) => panic!("expected a failure"),
        Err(e) => e,
    }
}

fn strings(v: &[&str]) -> Vec<String> {
    v.iter().map(|s| s.to_string()).collect()
}

#[test]
fn type_integer_accepts_integral_values() {
    let schema = obj(vec![("type", text("integer"))]);
    assert!(is_valid(&whole(4), &schema));
    assert!(is_valid(&float(4.0), &schema));
    assert!(!is_valid(&float(4.5), &schema));
    assert!(!is_valid(&text("4"), &schema));
    assert_eq!(fails(&float(4.5), &schema).msg, "type");
}

#[test]
fn type_names_and_lists() {
    assert!(is_valid(&JsonValue::Null, &obj(vec![("type", text("null"))])));
    assert!(is_valid(&JsonValue::Bool(true), &obj(vec![("type", text("boolean"))])));
    assert!(is_valid(&float(1.5), &obj(vec![("type", text("number"))])));
    assert!(is_valid(&empty(), &obj(vec![("type", text("object"))])));
    assert!(is_valid(&arr(vec![]), &obj(vec![("type", text("array"))])));
    assert!(!is_valid(&arr(vec![]), &obj(vec![("type", text("string"))])));
    assert!(is_valid(&whole(1), &obj(vec![("type", text("whatever"))])));
    let either = obj(vec![("type", arr(vec![text("string"), text("null")]))]);
    assert!(is_valid(&JsonValue::Null, &either));
    assert!(!is_valid(&whole(1), &either));
    assert!(!is_valid(&whole(1), &obj(vec![("type", arr(vec![]))])));
}

#[test]
fn unique_items_uses_structural_equality() {
    let schema = obj(vec![("uniqueItems", JsonValue::Bool(true))]);
    assert!(!is_valid(&arr(vec![whole(1), whole(1)]), &schema));
    assert!(is_valid(&arr(vec![whole(1), whole(2)]), &schema));
    let a1 = obj(vec![("a", whole(1))]);
    let a2 = obj(vec![("a", whole(1))]);
    assert!(!is_valid(&arr(vec![a1, a2]), &schema));
    assert!(!is_valid(&arr(vec![whole(1), float(1.0)]), &schema));
    assert_eq!(fails(&arr(vec![whole(1), whole(1)]), &schema).msg, "uniqueItems");
    let off = obj(vec![("uniqueItems", JsonValue::Bool(false))]);
    assert!(is_valid(&arr(vec![whole(1), whole(1)]), &off));
}

#[test]
fn unique_elements_ignore_member_order() {
    let x = obj(vec![("a", whole(1)), ("b", whole(2))]);
    let y = obj(vec![("b", whole(2)), ("a", whole(1))]);
    assert!(!has_unique_elements(&vec![x, y]));
    assert!(has_unique_elements(&vec![whole(1), text("1"), JsonValue::Null]));
    assert!(has_unique_elements(&vec![]));
}

#[test]
fn additional_properties_false_names_the_key() {
    let schema = obj(vec![
        ("properties", obj(vec![("a", empty())])),
        ("additionalProperties", JsonValue::Bool(false)),
    ]);
    let bad = obj(vec![("a", whole(1)), ("b", whole(2))]);
    let e = fails(&bad, &schema);
    assert!(e.msg.contains("'b'"));
    assert_eq!(e.schema_path, strings(&["additionalProperties"]));
    assert!(is_valid(&obj(vec![("a", whole(1))]), &schema));
}

#[test]
fn additional_properties_schema_and_patterns() {
    let schema = obj(vec![
        ("patternProperties", obj(vec![("^x_", empty())])),
        ("additionalProperties", obj(vec![("type", text("integer"))])),
    ]);
    assert!(is_valid(&obj(vec![("x_a", text("s")), ("b", whole(2))]), &schema));
    let e = fails(&obj(vec![("b", text("s"))]), &schema);
    assert_eq!(e.instance_path, strings(&["b"]));
    assert_eq!(e.schema_path, strings(&["type", "additionalProperties"]));
}

#[test]
fn tuple_items_and_additional_items() {
    let schema = obj(vec![
        ("items", arr(vec![obj(vec![("type", text("number"))])])),
        ("additionalItems", JsonValue::Bool(false)),
    ]);
    let e = fails(&arr(vec![whole(1), text("x")]), &schema);
    assert_eq!(e.msg, "Additional items are not allowed");
    assert!(is_valid(&arr(vec![whole(1)]), &schema));
    let e = fails(&arr(vec![text("x")]), &schema);
    assert_eq!(e.instance_path, strings(&["0"]));
    assert_eq!(e.schema_path, strings(&["type", "0", "items"]));
}

#[test]
fn additional_items_schema_applies_past_the_tuple() {
    let schema = obj(vec![
        ("items", arr(vec![empty()])),
        ("additionalItems", obj(vec![("type", text("string"))])),
    ]);
    assert!(is_valid(&arr(vec![whole(1), text("a")]), &schema));
    let e = fails(&arr(vec![whole(1), text("a"), whole(3)]), &schema);
    assert_eq!(e.instance_path, strings(&["2"]));
    let single = obj(vec![("items", empty()), ("additionalItems", JsonValue::Bool(false))]);
    assert!(is_valid(&arr(vec![whole(1), whole(2)]), &single));
}

#[test]
fn items_single_and_boolean_schemas() {
    let schema = obj(vec![("items", obj(vec![("minimum", whole(0))]))]);
    assert!(is_valid(&arr(vec![whole(0), whole(3)]), &schema));
    let e = fails(&arr(vec![whole(0), whole(-3)]), &schema);
    assert_eq!(e.instance_path, strings(&["1"]));
    assert!(is_valid(&arr(vec![whole(1)]), &obj(vec![("items", JsonValue::Bool(true))])));
    let e = fails(&arr(vec![whole(1)]), &obj(vec![("items", JsonValue::Bool(false))]));
    assert_eq!(e.msg, "not");
    assert!(is_valid(&arr(vec![]), &obj(vec![("items", JsonValue::Bool(false))])));
}

#[test]
fn all_of_reports_failing_branch_index() {
    let schema = obj(vec![(
        "allOf",
        arr(vec![obj(vec![("minimum", whole(0))]), obj(vec![("maximum", whole(10))])]),
    )]);
    assert!(is_valid(&whole(5), &schema));
    let e = fails(&whole(-1), &schema);
    assert_eq!(e.schema_path, strings(&["minimum", "0", "allOf"]));
    let e = fails(&whole(11), &schema);
    assert_eq!(e.schema_path, strings(&["maximum", "1", "allOf"]));
}

#[test]
fn error_paths_through_properties() {
    let schema = obj(vec![("properties", obj(vec![("a", obj(vec![("minimum", whole(5))]))]))]);
    let e = fails(&obj(vec![("a", whole(1))]), &schema);
    assert_eq!(e.instance_path, strings(&["a"]));
    assert_eq!(e.schema_path, strings(&["minimum", "a", "properties"]));
    assert_eq!(e.to_text(), "At a in schema properties/a/minimum: minimum");
    assert!(is_valid(&obj(vec![("b", whole(1))]), &schema));
}

#[test]
fn is_valid_agrees_with_run_validators() {
    let schemas = vec![
        JsonValue::Bool(true),
        JsonValue::Bool(false),
        whole(3),
        obj(vec![("minimum", whole(2))]),
        obj(vec![("type", text("string"))]),
    ];
    let instances = vec![whole(1), whole(5), text("s"), JsonValue::Null];
    for s in &schemas {
        for i in &instances {
            assert_eq!(is_valid(i, s), run_validators(i, s).is_ok());
        }
    }
}

#[test]
fn validation_is_repeatable() {
    let schema = obj(vec![("properties", obj(vec![("a", obj(vec![("maximum", whole(0))]))]))]);
    let instance = obj(vec![("a", whole(1))]);
    let first = fails(&instance, &schema);
    let second = fails(&instance, &schema);
    assert_eq!(first.msg, second.msg);
    assert_eq!(first.instance_path, second.instance_path);
    assert_eq!(first.schema_path, second.schema_path);
}

#[test]
fn boolean_schemas() {
    for i in [whole(1), JsonValue::Null, text("x"), arr(vec![]), empty()] {
        assert!(run_validators(&i, &JsonValue::Bool(true)).is_ok());
        let e = fails(&i, &JsonValue::Bool(false));
        assert_eq!(e.msg, "False schema always fails");
        assert!(e.instance_path.is_empty() && e.schema_path.is_empty());
    }
}

#[test]
fn scalar_schema_is_invalid() {
    assert_eq!(fails(&whole(1), &whole(3)).msg, "Invalid schema");
    assert_eq!(fails(&whole(1), &text("x")).msg, "Invalid schema");
}

#[test]
fn reference_keyword_stops_evaluation() {
    let schema = obj(vec![("$ref", text("#/x")), ("minimum", whole(10))]);
    assert!(is_valid(&whole(1), &schema));
}

#[test]
fn unknown_keywords_are_ignored() {
    assert!(is_valid(&whole(1), &obj(vec![("format", text("date")), ("title", text("t"))])));
}

#[test]
fn keywords_run_in_schema_order() {
    let schema = obj(vec![("maximum", whole(0)), ("type", text("string"))]);
    assert_eq!(fails(&whole(1), &schema).msg, "maximum");
    let schema = obj(vec![("type", text("string")), ("maximum", whole(0))]);
    assert_eq!(fails(&whole(1), &schema).msg, "type");
}

#[test]
fn numeric_bounds() {
    let min = obj(vec![("minimum", whole(2))]);
    assert!(is_valid(&whole(2), &min));
    assert!(!is_valid(&float(1.5), &min));
    let xmin = obj(vec![("exclusiveMinimum", whole(2))]);
    assert!(!is_valid(&whole(2), &xmin));
    assert!(is_valid(&float(2.5), &xmin));
    assert_eq!(fails(&float(2.0), &xmin).msg, "exclusiveMinimum");
    let xmax = obj(vec![("exclusiveMaximum", float(2.5))]);
    assert!(is_valid(&whole(2), &xmax));
    assert_eq!(fails(&float(2.5), &xmax).msg, "exclusiveMaximum");
    let max = obj(vec![("maximum", float(-0.5))]);
    assert!(is_valid(&whole(-1), &max));
    assert!(!is_valid(&whole(0), &max));
    assert!(is_valid(&text("big"), &max));
    assert!(is_valid(&whole(i64::MIN), &obj(vec![("maximum", JsonValue::Number(JsonNumber::from_u64(u64::MAX)))])));
}

#[test]
fn multiple_of_is_exact() {
    let by_int = obj(vec![("multipleOf", whole(3))]);
    assert!(is_valid(&whole(9), &by_int));
    assert!(is_valid(&whole(-9), &by_int));
    assert_eq!(fails(&whole(10), &by_int).msg, "not multipleOf");
    let by_float = obj(vec![("multipleOf", float(2.5))]);
    assert!(is_valid(&float(7.5), &by_float));
    assert!(is_valid(&whole(10), &by_float));
    assert!(!is_valid(&whole(7), &by_float));
    let by_half = obj(vec![("multipleOf", float(0.5))]);
    assert!(is_valid(&float(1.5), &by_half));
    assert!(!is_valid(&float(1.25), &by_half));
    let by_zero = obj(vec![("multipleOf", whole(0))]);
    assert!(is_valid(&whole(0), &by_zero));
    assert!(!is_valid(&whole(4), &by_zero));
}

#[test]
fn lengths_and_counts() {
    assert!(is_valid(&text("héé"), &obj(vec![("maxLength", whole(3))])));
    assert_eq!(fails(&text("héé"), &obj(vec![("minLength", whole(4))])).msg, "minLength");
    assert_eq!(fails(&text("abcd"), &obj(vec![("maxLength", whole(3))])).msg, "maxLength");
    assert_eq!(fails(&arr(vec![]), &obj(vec![("minItems", whole(1))])).msg, "minItems");
    assert_eq!(fails(&arr(vec![whole(1), whole(2)]), &obj(vec![("maxItems", whole(1))])).msg, "maxItems");
    assert!(is_valid(&arr(vec![whole(1)]), &obj(vec![("maxItems", whole(1))])));
    let two = obj(vec![("a", whole(1)), ("b", whole(2))]);
    assert_eq!(fails(&two, &obj(vec![("maxProperties", whole(1))])).msg, "maxProperties");
    assert_eq!(fails(&two, &obj(vec![("minProperties", whole(3))])).msg, "minProperties");
    assert!(is_valid(&two, &obj(vec![("minProperties", whole(2))])));
}

#[test]
fn const_and_enum() {
    assert!(is_valid(&float(1.0), &obj(vec![("const", whole(1))])));
    assert_eq!(fails(&whole(2), &obj(vec![("const", whole(1))])).msg, "Invalid const");
    let schema = obj(vec![("enum", arr(vec![text("a"), arr(vec![whole(1)])]))]);
    assert!(is_valid(&arr(vec![whole(1)]), &schema));
    assert_eq!(fails(&text("b"), &schema).msg, "enum");
}

#[test]
fn required_names_the_missing_key() {
    let schema = obj(vec![("required", arr(vec![text("a"), text("b")]))]);
    assert!(is_valid(&obj(vec![("a", whole(1)), ("b", whole(2))]), &schema));
    assert_eq!(fails(&obj(vec![("a", whole(1))]), &schema).msg, "required property 'b' missing");
    assert!(is_valid(&whole(1), &schema));
}

#[test]
fn pattern_properties_and_bad_patterns() {
    let schema = obj(vec![("patternProperties", obj(vec![("^a", obj(vec![("type", text("integer"))]))]))]);
    assert!(is_valid(&obj(vec![("ab", whole(1)), ("b", text("x"))]), &schema));
    let e = fails(&obj(vec![("ab", text("x"))]), &schema);
    assert_eq!(e.instance_path, strings(&["ab"]));
    assert_eq!(e.schema_path, strings(&["type", "^a", "patternProperties"]));
    let bad = obj(vec![("patternProperties", obj(vec![("(", empty())]))]);
    let e = fails(&obj(vec![("a", whole(1))]), &bad);
    assert!(!e.msg.is_empty());
    assert_eq!(e.schema_path, strings(&["patternProperties"]));
}

#[test]
fn property_names_checks_keys() {
    let schema = obj(vec![("propertyNames", obj(vec![("maxLength", whole(2))]))]);
    assert!(is_valid(&obj(vec![("ab", whole(1))]), &schema));
    let e = fails(&obj(vec![("abc", whole(1))]), &schema);
    assert_eq!(e.instance_path, strings(&["abc"]));
    assert_eq!(e.schema_path, strings(&["maxLength", "propertyNames"]));
}

#[test]
fn dependencies_forms() {
    let names = obj(vec![("dependencies", obj(vec![("a", arr(vec![text("b")]))]))]);
    assert_eq!(fails(&obj(vec![("a", whole(1))]), &names).msg, "dependency");
    assert!(is_valid(&obj(vec![("a", whole(1)), ("b", whole(1))]), &names));
    let one = obj(vec![("dependencies", obj(vec![("a", text("c"))]))]);
    assert!(!is_valid(&obj(vec![("a", whole(1))]), &one));
    let sub = obj(vec![("dependencies", obj(vec![("a", obj(vec![("minProperties", whole(2))]))]))]);
    let e = fails(&obj(vec![("x", whole(1))]), &sub);
    assert_eq!(e.schema_path, strings(&["minProperties", "a", "dependencies"]));
    let never = obj(vec![("dependencies", obj(vec![("a", JsonValue::Bool(false))]))]);
    let e = fails(&empty(), &never);
    assert_eq!(e.schema_path, strings(&["not", "a", "dependencies"]));
}

#[test]
fn any_of_tries_every_branch() {
    let schema = obj(vec![(
        "anyOf",
        arr(vec![obj(vec![("type", text("string"))]), obj(vec![("type", text("integer"))])]),
    )]);
    assert!(is_valid(&whole(1), &schema));
    assert_eq!(fails(&JsonValue::Null, &schema).msg, "anyOf");
    assert!(is_valid(&whole(1), &obj(vec![("anyOf", arr(vec![]))])));
}

#[test]
fn one_of_counts_passing_branches() {
    let schema = obj(vec![(
        "oneOf",
        arr(vec![obj(vec![("minimum", whole(0))]), obj(vec![("maximum", whole(10))])]),
    )]);
    assert!(is_valid(&whole(-5), &schema));
    assert!(is_valid(&whole(15), &schema));
    assert_eq!(fails(&whole(5), &schema).msg, "oneOf");
    assert!(!is_valid(&whole(1), &obj(vec![("oneOf", arr(vec![]))])));
}

#[test]
fn not_and_contains() {
    let schema = obj(vec![("not", obj(vec![("type", text("string"))]))]);
    assert!(is_valid(&whole(1), &schema));
    assert_eq!(fails(&text("s"), &schema).msg, "not");
    let contains = obj(vec![("contains", obj(vec![("minimum", whole(5))]))]);
    assert!(is_valid(&arr(vec![whole(1), whole(7)]), &contains));
    assert_eq!(fails(&arr(vec![whole(1)]), &contains).msg, "Nothing is valid under the given schema");
    assert!(!is_valid(&arr(vec![]), &contains));
}

#[test]
fn error_rendering_and_construction() {
    let e = ValidationError::new("boom");
    assert_eq!(e.to_text(), "At  in schema : boom");
    assert_eq!(e.message(), "boom");
    let mut e = ValidationError::new("m");
    e.push_instance("x".to_string());
    e.push_instance("y".to_string());
    e.push_schema("s".to_string());
    assert_eq!(e.to_text(), "At y/x in schema s: m");
}

#[test]
fn decimal_indices() {
    assert_eq!(decimal_text(0), "0");
    assert_eq!(decimal_text(7), "7");
    assert_eq!(decimal_text(120), "120");
}

#[test]
fn number_encodings() {
    let n = JsonNumber::from_binary64_bits(0.5f64.to_bits());
    assert!(!n.is_integral());
    assert!(JsonNumber::from_binary64_bits(1e300f64.to_bits()).is_integral());
    assert!(JsonNumber::from_binary64_bits((-0.0f64).to_bits()).is_integral());
    assert!(is_valid(&float(-0.0), &obj(vec![("const", whole(0))])));
}

fn unsigned(n: u64) -> JsonValue {
    JsonValue::Number(JsonNumber::from_u64(n))
}

#[test]
fn bounds_compare_binary64_values() {
    let two53 = 1u64 << 53;
    assert!(is_valid(&unsigned(two53), &obj(vec![("minimum", unsigned(two53 + 1))])));
    assert!(is_valid(&unsigned(two53 + 1), &obj(vec![("maximum", float(9007199254740992.0))])));
    let e = fails(&unsigned(two53 + 1), &obj(vec![("exclusiveMaximum", unsigned(two53))]));
    assert_eq!(e.msg, "exclusiveMaximum");
    assert!(!is_valid(&unsigned(two53 + 2), &obj(vec![("maximum", unsigned(two53))])));
    assert!(is_valid(&unsigned(u64::MAX), &obj(vec![("minimum", float(18446744073709551616.0))])));
}

#[test]
fn multiple_of_float_divisor_uses_binary64_quotient() {
    let tenth = obj(vec![("multipleOf", float(0.1))]);
    assert!(is_valid(&whole(10), &tenth));
    assert!(is_valid(&float(10.0), &tenth));
    assert!(is_valid(&float(0.5), &tenth));
    assert_eq!(fails(&float(0.3), &tenth).msg, "not multipleOf");
    let odd = (1u64 << 53) + 1;
    assert!(!is_valid(&unsigned(odd), &obj(vec![("multipleOf", whole(2))])));
    assert!(is_valid(&unsigned(odd), &obj(vec![("multipleOf", float(2.0))])));
    assert!(is_valid(&float(0.0), &obj(vec![("multipleOf", float(0.0))])));
    assert!(!is_valid(&float(1.0), &obj(vec![("multipleOf", float(0.0))])));
}

#[test]
fn rounding_to_binary64() {
    let n = JsonNumber::from_u64((1u64 << 53) + 1).round_to_binary64();
    assert_eq!((n.mantissa, n.exponent), (1u64 << 52, 1));
    let n = JsonNumber::from_u64((1u64 << 53) + 3).round_to_binary64();
    assert_eq!((n.mantissa, n.exponent), ((1u64 << 52) + 2, 1));
    let n = JsonNumber::from_u64(12345).round_to_binary64();
    assert_eq!((n.mantissa, n.exponent), (12345, 0));
}
