use openai_schemars::json::JsonValue;
use openai_schemars::Schema;

fn s(x: &str) -> JsonValue {
    JsonValue::String(x.to_string())
}

fn num(n: u64) -> JsonValue {
    JsonValue::Number(serde_json::Number::from(n))
}

fn arr(items: Vec<JsonValue>) -> JsonValue {
    JsonValue::Array(items)
}

fn obj(members: Vec<(&str, JsonValue)>) -> JsonValue {
    JsonValue::Object(members.into_iter().map(|(k, v)| (k.to_string(), v)).collect())
}

fn normalized(v: JsonValue) -> JsonValue {
    Schema::new(v).value
}

#[test]
fn object_schema_example() {
    let input = obj(vec![
        ("type", s("object")),
        ("properties", obj(vec![("name", obj(vec![("type", s("string")), ("minLength", num(1))]))])),
        ("required", arr(vec![])),
    ]);
    let expected = obj(vec![
        ("type", s("object")),
        ("properties", obj(vec![("name", obj(vec![("type", s("string"))]))])),
        ("required", arr(vec![s("name")])),
        ("additionalProperties", JsonValue::Bool(false)),
    ]);
    assert_eq!(normalized(input), expected);
}

#[test]
fn one_of_example() {
    let input = obj(vec![(
        "oneOf",
        arr(vec![
            obj(vec![("type", s("string"))]),
            obj(vec![("type", s("number")), ("minimum", num(0))]),
        ]),
    )]);
    let expected = obj(vec![(
        "anyOf",
        arr(vec![obj(vec![("type", s("string"))]), obj(vec![("type", s("number"))])]),
    )]);
    assert_eq!(normalized(input), expected);
}

#[test]
fn strips_every_constraint_keyword() {
    let keys = [
        "minLength", "maxLength", "pattern", "format", "minimum", "maximum", "multipleOf",
        "patternProperties", "unevaluatedProperties", "propertyNames", "minProperties",
        "maxProperties", "unevaluatedItems", "contains", "minContains", "maxContains", "minItems",
        "maxItems", "uniqueItems",
    ];
    let mut members: Vec<(&str, JsonValue)> = keys.iter().map(|k| (*k, num(3))).collect();
    members.push(("description", s("kept")));
    let mut v = obj(members);
    Schema::remove_property_format_value_from_json(&mut v);
    assert_eq!(v, obj(vec![("description", s("kept"))]));
}

#[test]
fn strips_inside_arrays_and_nested_objects() {
    let mut v = arr(vec![
        obj(vec![("items", obj(vec![("type", s("integer")), ("maximum", num(9))]))]),
        num(7),
        arr(vec![obj(vec![("format", s("date")), ("title", s("t"))])]),
    ]);
    Schema::remove_property_format_value_from_json(&mut v);
    let expected = arr(vec![
        obj(vec![("items", obj(vec![("type", s("integer"))]))]),
        num(7),
        arr(vec![obj(vec![("title", s("t"))])]),
    ]);
    assert_eq!(v, expected);
}

#[test]
fn all_of_becomes_any_of() {
    let mut v = obj(vec![("allOf", arr(vec![obj(vec![("$ref", s("#/definitions/A"))])])), ("title", s("x"))]);
    Schema::replace_one_of_by_any_of(&mut v);
    let expected = obj(vec![("title", s("x")), ("anyOf", arr(vec![obj(vec![("$ref", s("#/definitions/A"))])]))]);
    assert_eq!(v, expected);
}

#[test]
fn all_of_overwrites_one_of_when_both_present() {
    let mut v = obj(vec![("oneOf", arr(vec![s("a")])), ("allOf", arr(vec![s("b")]))]);
    Schema::replace_one_of_by_any_of(&mut v);
    assert_eq!(v, obj(vec![("anyOf", arr(vec![s("b")]))]));
}

#[test]
fn existing_any_of_is_kept_without_alternatives() {
    let mut v = obj(vec![("anyOf", arr(vec![s("a")]))]);
    Schema::replace_one_of_by_any_of(&mut v);
    assert_eq!(v, obj(vec![("anyOf", arr(vec![s("a")]))]));
}

#[test]
fn one_of_replaces_existing_any_of_in_place() {
    let mut v = obj(vec![("anyOf", arr(vec![s("a")])), ("oneOf", arr(vec![s("b")]))]);
    Schema::replace_one_of_by_any_of(&mut v);
    assert_eq!(v, obj(vec![("anyOf", arr(vec![s("b")]))]));
}

#[test]
fn closes_object_schemas_only() {
    let mut v = obj(vec![
        ("type", s("object")),
        ("additionalProperties", JsonValue::Bool(true)),
        ("properties", obj(vec![("n", obj(vec![("type", s("integer"))]))])),
        ("items", arr(vec![obj(vec![("type", s("object"))])])),
    ]);
    Schema::set_additional_properties_to_false(&mut v);
    let expected = obj(vec![
        ("type", s("object")),
        ("additionalProperties", JsonValue::Bool(false)),
        ("properties", obj(vec![("n", obj(vec![("type", s("integer"))]))])),
        ("items", arr(vec![obj(vec![("type", s("object")), ("additionalProperties", JsonValue::Bool(false))])])),
    ]);
    assert_eq!(v, expected);
}

#[test]
fn type_array_is_not_closed() {
    let mut v = obj(vec![("type", arr(vec![s("object"), s("null")]))]);
    Schema::set_additional_properties_to_false(&mut v);
    assert_eq!(v, obj(vec![("type", arr(vec![s("object"), s("null")]))]));
}

#[test]
fn required_gains_missing_names_in_order_without_duplicates() {
    let mut v = obj(vec![
        ("properties", obj(vec![("a", obj(vec![])), ("b", obj(vec![])), ("c", obj(vec![]))])),
        ("required", arr(vec![s("b"), num(1)])),
    ]);
    Schema::enforce_all_required_properties(&mut v);
    let expected = obj(vec![
        ("properties", obj(vec![("a", obj(vec![])), ("b", obj(vec![])), ("c", obj(vec![]))])),
        ("required", arr(vec![s("b"), num(1), s("a"), s("c")])),
    ]);
    assert_eq!(v, expected);
}

#[test]
fn missing_or_malformed_required_is_left_alone() {
    let no_required = || obj(vec![("properties", obj(vec![("a", obj(vec![]))]))]);
    let mut v = no_required();
    Schema::enforce_all_required_properties(&mut v);
    assert_eq!(v, no_required());

    let not_array = || obj(vec![("properties", obj(vec![("a", obj(vec![]))])), ("required", s("a"))]);
    let mut v = not_array();
    Schema::enforce_all_required_properties(&mut v);
    assert_eq!(v, not_array());

    let properties_not_object = || obj(vec![("properties", arr(vec![])), ("required", arr(vec![]))]);
    let mut v = properties_not_object();
    Schema::enforce_all_required_properties(&mut v);
    assert_eq!(v, properties_not_object());
}

#[test]
fn nested_required_is_completed() {
    let inner = obj(vec![
        ("type", s("object")),
        ("properties", obj(vec![("x", obj(vec![("type", s("number")), ("multipleOf", num(2))]))])),
        ("required", arr(vec![])),
    ]);
    let input = obj(vec![("definitions", obj(vec![("Inner", inner)]))]);
    let expected_inner = obj(vec![
        ("type", s("object")),
        ("properties", obj(vec![("x", obj(vec![("type", s("number"))]))])),
        ("required", arr(vec![s("x")])),
        ("additionalProperties", JsonValue::Bool(false)),
    ]);
    assert_eq!(normalized(input), obj(vec![("definitions", obj(vec![("Inner", expected_inner)]))]));
}

#[test]
fn pipeline_is_idempotent_on_a_sample() {
    let input = || obj(vec![
        ("type", s("object")),
        ("oneOf", arr(vec![obj(vec![("type", s("object")), ("properties", obj(vec![("k", obj(vec![("pattern", s("^a"))]))])), ("required", arr(vec![]))])])),
        ("properties", obj(vec![("p", obj(vec![("allOf", arr(vec![obj(vec![("minItems", num(1))])]))]))])),
        ("required", arr(vec![s("p")])),
    ]);
    let once = normalized(input());
    let twice = normalized(normalized(input()));
    assert_eq!(once, twice);
}

#[test]
fn scalars_and_array_shapes_are_preserved() {
    assert_eq!(normalized(num(5)), num(5));
    assert_eq!(normalized(s("minLength")), s("minLength"));
    assert_eq!(normalized(JsonValue::Null), JsonValue::Null);
    let v = arr(vec![num(1), arr(vec![]), obj(vec![("maxLength", num(2))]), JsonValue::Bool(true)]);
    let out = normalized(v);
    assert_eq!(out, arr(vec![num(1), arr(vec![]), obj(vec![]), JsonValue::Bool(true)]));
}

#[test]
fn duplicate_keys_are_not_well_formed() {
    let nested = arr(vec![obj(vec![("a", num(1)), ("b", num(2)), ("a", num(3))])]);
    assert!(!nested.is_well_formed());
    let fine = arr(vec![obj(vec![("a", num(1)), ("b", obj(vec![("a", num(2))]))])]);
    assert!(fine.is_well_formed());
    assert!(JsonValue::Null.is_well_formed());
}

#[test]
fn property_named_like_a_keyword_is_removed() {
    let mut v = obj(vec![(
        "properties",
        obj(vec![("format", obj(vec![("type", s("string"))])), ("name", obj(vec![("type", s("string"))]))]),
    )]);
    Schema::remove_property_format_value_from_json(&mut v);
    assert_eq!(v, obj(vec![("properties", obj(vec![("name", obj(vec![("type", s("string"))]))]))]));
}

#[test]
fn type_and_properties_values_are_kept() {
    let input = obj(vec![
        ("type", s("object")),
        ("properties", obj(vec![("id", obj(vec![("type", s("integer"))]))])),
    ]);
    let expected = obj(vec![
        ("type", s("object")),
        ("properties", obj(vec![("id", obj(vec![("type", s("integer"))]))])),
        ("additionalProperties", JsonValue::Bool(false)),
    ]);
    assert_eq!(normalized(input), expected);
}
