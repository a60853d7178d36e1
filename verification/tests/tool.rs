use minuet::tool::{
    ToolDefinition, ToolError, ToolRegistry, ToolRegistryError, check_definition, encode_error,
    invocation_error, random_integer, validate_definition, SchemaShape, TypeField,
};

fn definition(name: &str, parameters: &str) -> ToolDefinition {
    ToolDefinition { name: name.to_owned(), description: format!("{name} tool"), parameters: parameters.to_owned() }
}

#[test]
fn result_and_error_encoding_are_json_protocol_values() {
    assert_eq!(encode_error("execution_error", "failed"), r#"{"error":{"kind":"execution_error","message":"failed"}}"#);
}

#[test]
fn rejects_non_object_parameter_schema_types() {
    let definition = ToolDefinition {
        name: "bad_schema".into(),
        description: "invalid".into(),
        parameters: r#"{"type": "string"}"#.into(),
    };
    assert!(matches!(
        validate_definition(&definition),
        Err(ToolRegistryError::InvalidDefinition(message))
            if message.contains("must describe an object")
    ));
}

#[test]
fn registration_definition_is_the_routing_and_exposure_snapshot() {
    let snapshot = ToolDefinition {
        name: "snapshot".into(),
        description: "fixed".into(),
        parameters: r#"{"type":"object"}"#.into(),
    };
    let registry = ToolRegistry::new(vec![snapshot], &["snapshot".into()]).unwrap();
    assert_eq!(registry.list()[0].name, "snapshot");
    assert_eq!(registry.definitions()[0].description, "fixed");
}

#[test]
fn registry_orders_by_name_and_refuses_duplicates_and_unknown_names() {
    let defs = vec![definition("zeta", "{}"), definition("alpha", r#"{"type":"object"}"#)];
    let registry = ToolRegistry::new(defs, &["zeta".into()]).unwrap();
    let names: Vec<_> = registry.list().into_iter().map(|s| (s.name, s.enabled)).collect();
    assert_eq!(names, [("alpha".to_owned(), false), ("zeta".to_owned(), true)]);
    assert_eq!(registry.definitions().len(), 1);
    assert_eq!(registry.route("zeta"), Ok(0));
    let unknown = registry.route("nope").unwrap_err();
    assert!(unknown.is_error && unknown.output.contains("unknown_tool"));
    let disabled = registry.route("alpha").unwrap_err();
    assert!(disabled.output.contains("disabled_tool"));

    let dup = ToolRegistry::new(vec![definition("a", "{}"), definition("a", "{}")], &[]);
    assert_eq!(dup.err(), Some(ToolRegistryError::Duplicate("a".into())));
    let missing = ToolRegistry::new(vec![definition("a", "{}")], &["b".into()]);
    assert_eq!(missing.err(), Some(ToolRegistryError::Unknown("b".into())));
    let invalid = ToolRegistry::new(vec![definition(" ", "{}")], &[]);
    assert_eq!(invalid.err().unwrap().message(), "invalid tool definition: tool name must not be empty");
}

#[test]
fn snapshots_route_exactly_the_tools_they_expose() {
    let mut registry = ToolRegistry::new(vec![definition("a", "{}"), definition("b", "{}")], &[]).unwrap();
    let snapshot = registry.snapshot(&["b".into(), "b".into()]).ok().unwrap();
    assert_eq!(snapshot.definitions().iter().map(|d| d.name.as_str()).collect::<Vec<_>>(), ["b"]);
    assert_eq!(snapshot.route("b"), Ok(1));
    assert!(snapshot.route("a").unwrap_err().output.contains("tool `a` is disabled"));
    assert!(registry.snapshot(&["c".into()]).is_err());
    registry.set_enabled("a", true).unwrap();
    assert!(registry.list_for(&["b".into()])[1].enabled);
    assert!(!registry.list_for(&["b".into()])[0].enabled);
    assert!(registry.set_enabled("c", true).is_err());
}

#[test]
fn schema_shapes_are_checked_without_parsing_twice() {
    assert!(check_definition("t", &SchemaShape::Object(TypeField::Absent)).is_ok());
    assert!(check_definition("t", &SchemaShape::Object(TypeField::Other)).is_err());
    let e = check_definition("t", &SchemaShape::NotAnObject).unwrap_err();
    assert_eq!(e.message(), "invalid tool definition: tool `t` parameters must be a JSON object schema");
    assert!(validate_definition(&definition("t", "[1]")).is_err());
}

#[test]
fn errors_are_encoded_with_escaped_text() {
    let invocation = invocation_error("invalid_arguments", "bad \"x\"\n\u{1}");
    assert!(invocation.is_error);
    assert_eq!(
        invocation.output,
        "{\"error\":{\"kind\":\"invalid_arguments\",\"message\":\"bad \\\"x\\\"\\n\\u0001\"}}"
    );
    let parsed: serde_json::Value = serde_json::from_str(&invocation.output).unwrap();
    assert_eq!(parsed["error"]["message"], "bad \"x\"\n\u{1}");
    assert_eq!(ToolError::Execution("boom".into()).kind(), "execution_error");
    assert_eq!(ToolError::InvalidArguments("x".into()).message(), "invalid arguments: x");
}

#[test]
fn random_integers_stay_in_an_inclusive_range() {
    for _ in 0..100 {
        let v = random_integer(-2, 2).unwrap();
        assert!((-2..=2).contains(&v));
    }
    assert_eq!(random_integer(5, 5).unwrap(), 5);
    assert!(matches!(random_integer(4, 2), Err(ToolError::InvalidArguments(m)) if m == "min must be less than or equal to max"));
}

#[test]
fn tool_results_are_json_objects() {
    assert_eq!(minuet::tool::echo_result("a \"q\"\n"), r#"{"text":"a \"q\"\n"}"#);
    assert_eq!(minuet::tool::random_result(-42), r#"{"value":-42}"#);
    assert_eq!(minuet::tool::random_result(0), r#"{"value":0}"#);
    assert_eq!(minuet::tool::random_result(i64::MIN), r#"{"value":-9223372036854775808}"#);
    assert_eq!(
        minuet::tool::datetime_result("2024-01-02T03:04:05.006Z"),
        r#"{"datetime":"2024-01-02T03:04:05.006Z","timezone":"UTC"}"#
    );
}
