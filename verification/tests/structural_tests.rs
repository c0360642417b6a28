use envgen::errors::HardError;
use envgen::pointer::JsonPointer;
use envgen::value::{is_well_formed, value_eq, Value};
use envgen::structural::{validate_instance, validate_instance_with_depth};

fn s(x: &str) -> String {
    x.to_string()
}

fn vstr(x: &str) -> Value {
    Value::Str(s(x))
}

fn obj(fields: Vec<(&str, Value)>) -> Value {
    Value::Obj(fields.into_iter().map(|(k, v)| (s(k), v)).collect())
}

fn arr(items: Vec<Value>) -> Value {
    Value::Arr(items)
}

fn ok_errors(schema: &Value, instance: &Value) -> Vec<String> {
    validate_instance(schema, instance).expect("schema should not be malformed")
}

#[test]
fn boolean_false_schema_one_error_true_none() {
    let errs = ok_errors(&Value::Bool(false), &Value::Int(7));
    assert_eq!(errs, vec![s("does not match schema (false)")]);
    let errs = ok_errors(&Value::Bool(true), &Value::Int(7));
    assert!(errs.is_empty());
}

#[test]
fn boolean_false_error_at_current_pointer() {
    // Nested under a property, the pointer prefixes the message.
    let schema = obj(vec![("properties", obj(vec![("a", Value::Bool(false))]))]);
    let inst = obj(vec![("a", Value::Int(1))]);
    assert_eq!(
        ok_errors(&schema, &inst),
        vec![s("/a: does not match schema (false)")]
    );
}

#[test]
fn all_of_concatenates_errors_without_dedup() {
    let schema = obj(vec![(
        "allOf",
        arr(vec![Value::Bool(false), Value::Bool(false)]),
    )]);
    let errs = ok_errors(&schema, &Value::Null);
    assert_eq!(
        errs,
        vec![
            s("does not match schema (false)"),
            s("does not match schema (false)"),
        ]
    );
}

#[test]
fn empty_all_of_yields_no_errors() {
    let schema = obj(vec![("allOf", arr(vec![]))]);
    assert!(ok_errors(&schema, &Value::Null).is_empty());
}

#[test]
fn one_of_single_pass_no_errors() {
    let schema = obj(vec![(
        "oneOf",
        arr(vec![
            obj(vec![("type", vstr("string"))]),
            obj(vec![("type", vstr("number"))]),
        ]),
    )]);
    assert!(ok_errors(&schema, &vstr("hello")).is_empty());
}

#[test]
fn one_of_zero_or_many_passes_single_summary_error() {
    let schema = obj(vec![(
        "oneOf",
        arr(vec![
            obj(vec![("type", vstr("string"))]),
            obj(vec![("type", vstr("number"))]),
        ]),
    )]);
    // Zero branches pass.
    assert_eq!(
        ok_errors(&schema, &Value::Bool(true)),
        vec![s("must match exactly one schema in oneOf")]
    );
    // Both branches pass.
    let both = obj(vec![("oneOf", arr(vec![Value::Bool(true), Value::Bool(true)]))]);
    assert_eq!(
        ok_errors(&both, &Value::Null),
        vec![s("must match exactly one schema in oneOf")]
    );
}

#[test]
fn any_of_summary_error_only() {
    let schema = obj(vec![(
        "anyOf",
        arr(vec![
            obj(vec![("type", vstr("string"))]),
            obj(vec![("type", vstr("number"))]),
        ]),
    )]);
    assert!(ok_errors(&schema, &Value::Int(3)).is_empty());
    assert_eq!(
        ok_errors(&schema, &Value::Bool(true)),
        vec![s("must match at least one schema in anyOf")]
    );
}

#[test]
fn not_keyword() {
    let schema = obj(vec![("not", obj(vec![("type", vstr("string"))]))]);
    assert!(ok_errors(&schema, &Value::Int(1)).is_empty());
    assert_eq!(
        ok_errors(&schema, &vstr("x")),
        vec![s("must not match schema in not")]
    );
}

#[test]
fn if_then_else_branches() {
    let schema = obj(vec![
        ("else", obj(vec![("minLength", Value::Int(5))])),
        ("if", obj(vec![("type", vstr("string"))])),
        ("then", obj(vec![("minLength", Value::Int(2))])),
    ]);
    // String instance: `then` applies.
    assert_eq!(
        ok_errors(&schema, &vstr("a")),
        vec![s("string must be at least 2 characters")]
    );
    assert!(ok_errors(&schema, &vstr("ab")).is_empty());
    // Non-string instance: `else` applies, but minLength only binds strings.
    assert!(ok_errors(&schema, &Value::Int(1)).is_empty());
}

#[test]
fn required_two_errors_at_object_pointer() {
    let schema = obj(vec![("required", arr(vec![vstr("a"), vstr("b")]))]);
    let errs = ok_errors(&schema, &obj(vec![]));
    assert_eq!(
        errs,
        vec![
            s("missing required property \"a\""),
            s("missing required property \"b\""),
        ]
    );
}

#[test]
fn additional_properties_false_flags_extra_key_only() {
    let schema = obj(vec![
        ("additionalProperties", Value::Bool(false)),
        ("properties", obj(vec![("a", Value::Bool(true))])),
    ]);
    let inst = obj(vec![("a", Value::Int(1)), ("b", Value::Int(2))]);
    assert_eq!(ok_errors(&schema, &inst), vec![s("/b: unknown property")]);
}

#[test]
fn additional_properties_schema_validates_extras() {
    let schema = obj(vec![
        ("additionalProperties", obj(vec![("type", vstr("number"))])),
        ("properties", obj(vec![("a", Value::Bool(true))])),
    ]);
    let inst = obj(vec![("a", vstr("anything")), ("b", vstr("nope"))]);
    assert_eq!(
        ok_errors(&schema, &inst),
        vec![s("/b: expected type \"number\", got string")]
    );
}

#[test]
fn unique_items_exactly_one_error() {
    let schema = obj(vec![("uniqueItems", Value::Bool(true))]);
    let inst = arr(vec![Value::Int(1), Value::Int(2), Value::Int(2), Value::Int(3)]);
    assert_eq!(
        ok_errors(&schema, &inst),
        vec![s("array items must be unique")]
    );
    // Even with several duplicated values, a single error.
    let inst2 = arr(vec![Value::Int(1), Value::Int(1), Value::Int(2), Value::Int(2)]);
    assert_eq!(
        ok_errors(&schema, &inst2),
        vec![s("array items must be unique")]
    );
}

#[test]
fn pattern_is_substring_search_not_full_match() {
    let schema = obj(vec![("pattern", vstr("^abc"))]);
    // An anchored pattern does not match inside the text.
    assert_eq!(
        ok_errors(&schema, &vstr("xabc")),
        vec![s("string does not match pattern ^abc")]
    );
    // An unanchored pattern matches anywhere: substring search.
    let sub = obj(vec![("pattern", vstr("abc"))]);
    assert!(ok_errors(&sub, &vstr("xabcy")).is_empty());
    assert!(ok_errors(&sub, &vstr("abc")).is_empty());
}

#[test]
fn pattern_engine_really_runs() {
    let schema = obj(vec![("pattern", vstr("^[0-9]+$"))]);
    assert!(ok_errors(&schema, &vstr("12345")).is_empty());
    assert_eq!(
        ok_errors(&schema, &vstr("12a45")),
        vec![s("string does not match pattern ^[0-9]+$")]
    );
}

#[test]
fn invalid_pattern_is_hard_error() {
    let schema = obj(vec![("pattern", vstr("["))]);
    let err = validate_instance(&schema, &vstr("x")).unwrap_err();
    assert!(matches!(err, HardError::InvalidRegex(_)));
    assert_eq!(err.message(), "Invalid regex pattern in schema: [");
}

#[test]
fn ref_validates_like_inlined_target() {
    let schema = obj(vec![
        ("$ref", vstr("#/definitions/x")),
        (
            "definitions",
            obj(vec![("x", obj(vec![("type", vstr("string"))]))]),
        ),
    ]);
    let direct = obj(vec![("type", vstr("string"))]);
    let via_ref = ok_errors(&schema, &Value::Int(5));
    let inline = ok_errors(&direct, &Value::Int(5));
    assert_eq!(via_ref, inline);
    assert_eq!(via_ref, vec![s("expected type \"string\", got integer")]);
    assert!(ok_errors(&schema, &vstr("fine")).is_empty());
}

#[test]
fn unresolved_ref_is_hard_error() {
    let schema = obj(vec![("$ref", vstr("#/missing"))]);
    let err = validate_instance(&schema, &Value::Null).unwrap_err();
    assert!(matches!(err, HardError::UnresolvedRef(_)));
    assert_eq!(
        err.message(),
        "Unsupported or unresolved $ref: \"#/missing\": Unresolved $ref: #/missing"
    );
}

#[test]
fn non_local_ref_is_hard_error() {
    let schema = obj(vec![("$ref", vstr("http://example/x"))]);
    let err = validate_instance(&schema, &Value::Null).unwrap_err();
    assert!(matches!(err, HardError::NonLocalRef(_)));
}

#[test]
fn invalid_local_ref_is_hard_error() {
    // Local, but the fragment neither is empty nor starts with a slash.
    let schema = obj(vec![("$ref", vstr("#definitions"))]);
    let err = validate_instance(&schema, &Value::Null).unwrap_err();
    assert!(matches!(err, HardError::InvalidLocalRef(_)));
    assert_eq!(
        err.message(),
        "Unsupported or unresolved $ref: \"#definitions\": Invalid local ref: #definitions"
    );
}

#[test]
fn whole_document_ref_resolves_to_root() {
    // `#` alone points at the root schema itself.
    let schema = obj(vec![
        ("properties", obj(vec![("leaf", obj(vec![("$ref", vstr("#"))]))])),
        ("type", arr(vec![vstr("object"), vstr("integer")])),
    ]);
    let inst = obj(vec![("leaf", Value::Int(1))]);
    assert!(ok_errors(&schema, &inst).is_empty());
    let bad = obj(vec![("leaf", vstr("nope"))]);
    assert_eq!(
        ok_errors(&schema, &bad),
        vec![s("/leaf: expected type [\"integer\", \"object\"], got string")]
    );
}

#[test]
fn ref_walks_array_indices() {
    let schema = obj(vec![
        ("$ref", vstr("#/defs/0")),
        ("defs", arr(vec![obj(vec![("type", vstr("null"))])])),
    ]);
    assert!(ok_errors(&schema, &Value::Null).is_empty());
    assert_eq!(
        ok_errors(&schema, &Value::Int(1)),
        vec![s("expected type \"null\", got integer")]
    );
}

#[test]
fn escaped_property_renders_escaped_pointer() {
    let p = JsonPointer::root().push_prop("a/b");
    assert_eq!(p.as_str(), "/a~1b");
    let schema = obj(vec![("properties", obj(vec![("a/b", Value::Bool(false))]))]);
    let inst = obj(vec![("a/b", Value::Int(1))]);
    assert_eq!(
        ok_errors(&schema, &inst),
        vec![s("/a~1b: does not match schema (false)")]
    );
    let tilde = JsonPointer::root().push_prop("x~y");
    assert_eq!(tilde.as_str(), "/x~0y");
}

#[test]
fn missing_name_scenario() {
    let schema = obj(vec![
        ("required", arr(vec![vstr("name")])),
        ("type", vstr("object")),
    ]);
    assert_eq!(
        ok_errors(&schema, &obj(vec![])),
        vec![s("missing required property \"name\"")]
    );
}

#[test]
fn min_length_scenario() {
    let schema = obj(vec![("minLength", Value::Int(3)), ("type", vstr("string"))]);
    assert_eq!(
        ok_errors(&schema, &vstr("ab")),
        vec![s("string must be at least 3 characters")]
    );
    assert!(ok_errors(&schema, &vstr("abc")).is_empty());
}

#[test]
fn one_of_scenario_boolean_instance() {
    let schema = obj(vec![(
        "oneOf",
        arr(vec![
            obj(vec![("type", vstr("string"))]),
            obj(vec![("type", vstr("number"))]),
        ]),
    )]);
    assert_eq!(
        ok_errors(&schema, &Value::Bool(true)),
        vec![s("must match exactly one schema in oneOf")]
    );
}

#[test]
fn integer_vs_number_scenario() {
    let schema = obj(vec![(
        "properties",
        obj(vec![("x", obj(vec![("type", vstr("integer"))]))]),
    )]);
    let inst = obj(vec![("x", Value::Dec(s("1.5")))]);
    assert_eq!(
        ok_errors(&schema, &inst),
        vec![s("/x: expected type \"integer\", got number")]
    );
    let ok = obj(vec![("x", Value::Int(1))]);
    assert!(ok_errors(&schema, &ok).is_empty());
}

#[test]
fn type_mismatch_stops_later_keywords() {
    // After a type failure, minLength is not evaluated: one error only.
    let schema = obj(vec![("minLength", Value::Int(3)), ("type", vstr("string"))]);
    assert_eq!(
        ok_errors(&schema, &Value::Int(9)),
        vec![s("expected type \"string\", got integer")]
    );
}

#[test]
fn type_list_display_is_sorted() {
    let schema = obj(vec![("type", arr(vec![vstr("string"), vstr("number")]))]);
    assert_eq!(
        ok_errors(&schema, &Value::Bool(true)),
        vec![s("expected type [\"number\", \"string\"], got boolean")]
    );
    assert!(ok_errors(&schema, &vstr("ok")).is_empty());
    assert!(ok_errors(&schema, &Value::Dec(s("2.5"))).is_empty());
}

#[test]
fn const_mismatch_renders_value_as_json() {
    let cval = obj(vec![("a", arr(vec![Value::Int(1), Value::Bool(true), Value::Null]))]);
    let schema = obj(vec![("const", cval)]);
    assert_eq!(
        ok_errors(&schema, &Value::Int(5)),
        vec![s("must be equal to {\"a\":[1,true,null]}")]
    );
    let text_const = obj(vec![("const", vstr("he\"y"))]);
    assert_eq!(
        ok_errors(&text_const, &Value::Int(5)),
        vec![s("must be equal to \"he\\\"y\"")]
    );
}

#[test]
fn const_match_passes() {
    let schema = obj(vec![("const", arr(vec![Value::Int(1), Value::Int(2)]))]);
    assert!(ok_errors(&schema, &arr(vec![Value::Int(1), Value::Int(2)])).is_empty());
}

#[test]
fn enum_membership() {
    let schema = obj(vec![("enum", arr(vec![vstr("a"), Value::Int(2)]))]);
    assert!(ok_errors(&schema, &vstr("a")).is_empty());
    assert!(ok_errors(&schema, &Value::Int(2)).is_empty());
    assert_eq!(
        ok_errors(&schema, &vstr("b")),
        vec![s("must be one of the allowed values")]
    );
}

#[test]
fn min_properties_and_min_items() {
    let schema = obj(vec![("minProperties", Value::Int(2))]);
    assert_eq!(
        ok_errors(&schema, &obj(vec![("a", Value::Int(1))])),
        vec![s("object must have at least 2 properties")]
    );
    let aschema = obj(vec![("minItems", Value::Int(1))]);
    assert_eq!(
        ok_errors(&aschema, &arr(vec![])),
        vec![s("array must have at least 1 items")]
    );
}

#[test]
fn property_names_validated_as_strings() {
    let schema = obj(vec![("propertyNames", obj(vec![("minLength", Value::Int(2))]))]);
    let inst = obj(vec![("a", Value::Int(1)), ("bb", Value::Int(2))]);
    assert_eq!(
        ok_errors(&schema, &inst),
        vec![s("/a: string must be at least 2 characters")]
    );
}

#[test]
fn items_schema_applies_per_index() {
    let schema = obj(vec![("items", obj(vec![("type", vstr("integer"))]))]);
    let inst = arr(vec![Value::Int(1), vstr("x"), Value::Int(3)]);
    assert_eq!(
        ok_errors(&schema, &inst),
        vec![s("/1: expected type \"integer\", got string")]
    );
}

#[test]
fn bad_additional_properties_is_hard_error() {
    let schema = obj(vec![("additionalProperties", Value::Int(5))]);
    let err = validate_instance(&schema, &obj(vec![])).unwrap_err();
    assert!(matches!(err, HardError::BadAdditionalProperties));
}

#[test]
fn depth_limit_is_hard_error() {
    let schema = Value::Bool(true);
    let err = validate_instance_with_depth(&schema, &Value::Null, 0).unwrap_err();
    assert!(matches!(err, HardError::DepthExceeded));
    assert!(validate_instance_with_depth(&schema, &Value::Null, 1).is_ok());
}

#[test]
fn value_equality_is_structural() {
    let a = obj(vec![("k", arr(vec![Value::Int(1), Value::Dec(s("1.5"))]))]);
    let b = obj(vec![("k", arr(vec![Value::Int(1), Value::Dec(s("1.5"))]))]);
    let c = obj(vec![("k", arr(vec![Value::Int(1), Value::Dec(s("2.5"))]))]);
    assert!(value_eq(&a, &b));
    assert!(!value_eq(&a, &c));
    assert!(!value_eq(&Value::Int(1), &Value::Dec(s("1"))));
}

#[test]
fn well_formedness_checks_key_order() {
    let sorted = obj(vec![("a", Value::Int(1)), ("b", Value::Int(2))]);
    let unsorted = obj(vec![("b", Value::Int(1)), ("a", Value::Int(2))]);
    let dup = obj(vec![("a", Value::Int(1)), ("a", Value::Int(2))]);
    assert!(is_well_formed(&sorted));
    assert!(!is_well_formed(&unsorted));
    assert!(!is_well_formed(&dup));
}
