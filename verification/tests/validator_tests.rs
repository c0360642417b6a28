use envgen::types::{Metadata, Schema, Source, StrMap, Variable, VariableResolver};
use envgen::validator::validate_schema;

fn smap(pairs: &[(&str, &str)]) -> StrMap {
    let mut m = StrMap::new();
    for (k, v) in pairs {
        m.set(k.to_string(), v.to_string());
    }
    m
}

fn source(command: &str) -> Source {
    Source {
        command: command.to_string(),
        label: None,
        url: None,
        description: None,
    }
}

fn base_var(description: &str) -> Variable {
    Variable {
        description: description.to_string(),
        sensitive: true,
        source: None,
        source_key: None,
        source_instructions: None,
        environments: None,
        values: None,
        resolvers: None,
        required: true,
        notes: None,
    }
}

fn resolver(envs: &[&str], src: &str, values: Option<StrMap>) -> VariableResolver {
    VariableResolver {
        environments: envs.iter().map(|e| e.to_string()).collect(),
        source: src.to_string(),
        label: None,
        url: None,
        description: None,
        source_key: None,
        values,
    }
}

fn base_schema(
    envs: &[(&str, StrMap)],
    destination: &[(&str, &str)],
    sources: Vec<(&str, Source)>,
    variables: Vec<(&str, Variable)>,
) -> Schema {
    Schema {
        schema_version: "2".to_string(),
        metadata: Metadata {
            description: "Test".to_string(),
            destination: smap(destination),
        },
        environments: envs
            .iter()
            .map(|(n, m)| {
                (
                    n.to_string(),
                    StrMap { entries: m.entries.clone() },
                )
            })
            .collect(),
        sources: sources.into_iter().map(|(n, s)| (n.to_string(), s)).collect(),
        variables: variables.into_iter().map(|(n, v)| (n.to_string(), v)).collect(),
    }
}

#[test]
fn test_valid_schema() {
    let mut foo = base_var("A variable");
    foo.sensitive = false;
    foo.source = Some("static".to_string());
    foo.values = Some(smap(&[("local", "bar")]));
    let mut baz = base_var("Another variable");
    baz.source = Some("my-source".to_string());
    let schema = base_schema(
        &[("local", smap(&[("project", "test")]))],
        &[("local", ".env")],
        vec![("my-source", source("echo {key} --project {project}"))],
        vec![("BAZ", baz), ("FOO", foo)],
    );
    let errors = validate_schema(&schema);
    assert!(errors.is_empty(), "Expected no errors, got: {:?}", errors);
}

#[test]
fn test_v2_resolver_environments_overlap() {
    let mut foo = base_var("A variable");
    foo.sensitive = false;
    foo.resolvers = Some(vec![
        resolver(
            &["local", "staging"],
            "static",
            Some(smap(&[("local", "a"), ("staging", "b")])),
        ),
        resolver(&["staging"], "static", Some(smap(&[("staging", "c")]))),
    ]);
    let schema = base_schema(
        &[("local", smap(&[])), ("staging", smap(&[]))],
        &[("local", ".env"), ("staging", ".env.staging")],
        vec![],
        vec![("FOO", foo)],
    );
    let errors = validate_schema(&schema);
    assert!(
        errors
            .iter()
            .any(|e| e.contains("resolver environments overlap")),
        "Expected overlap error, got: {:?}",
        errors
    );
    assert!(
        errors
            .iter()
            .any(|e| e.contains("FOO") && e.contains("staging")),
        "Expected overlap to mention FOO/staging, got: {:?}",
        errors
    );
}

#[test]
fn test_v2_missing_resolver_coverage_for_environment() {
    let mut foo = base_var("A variable");
    foo.resolvers = Some(vec![resolver(
        &["local"],
        "static",
        Some(smap(&[("local", "a")])),
    )]);
    let schema = base_schema(
        &[("local", smap(&[])), ("production", smap(&[]))],
        &[("local", ".env"), ("production", ".env.production")],
        vec![],
        vec![("FOO", foo)],
    );
    let errors = validate_schema(&schema);
    assert!(
        errors
            .iter()
            .any(|e| e.contains("no resolver provided") && e.contains("production")),
        "Expected missing resolver coverage for production, got: {:?}",
        errors
    );
}

#[test]
fn test_v2_cannot_set_source_and_resolvers() {
    let mut foo = base_var("A variable");
    foo.source = Some("static".to_string());
    foo.resolvers = Some(vec![resolver(
        &["local"],
        "static",
        Some(smap(&[("local", "a")])),
    )]);
    let schema = base_schema(
        &[("local", smap(&[]))],
        &[("local", ".env")],
        vec![],
        vec![("FOO", foo)],
    );
    let errors = validate_schema(&schema);
    assert!(
        errors.iter().any(|e| e.contains("cannot set both")
            && e.contains("\"source\"")
            && e.contains("\"resolvers\"")),
        "Expected source+resolvers conflict error, got: {:?}",
        errors
    );
}

#[test]
fn test_v2_static_resolver_requires_values() {
    let mut foo = base_var("A variable");
    foo.resolvers = Some(vec![resolver(&["local"], "static", None)]);
    let schema = base_schema(
        &[("local", smap(&[]))],
        &[("local", ".env")],
        vec![],
        vec![("FOO", foo)],
    );
    let errors = validate_schema(&schema);
    assert!(
        errors
            .iter()
            .any(|e| e.contains("resolver source is \"static\"") && e.contains("values map")),
        "Expected missing values map error for static resolver, got: {:?}",
        errors
    );
}

#[test]
fn test_v2_resolver_command_template_unresolved_placeholders() {
    let mut foo = base_var("A variable");
    foo.resolvers = Some(vec![resolver(&["local"], "my-source", None)]);
    let schema = base_schema(
        &[("local", smap(&[("project", "test")]))],
        &[("local", ".env")],
        vec![("my-source", source("echo {missing}"))],
        vec![("FOO", foo)],
    );
    let errors = validate_schema(&schema);
    assert!(
        errors
            .iter()
            .any(|e| e.contains("{missing}") && e.contains("local")),
        "Expected unresolved placeholder error for {{missing}}/local, got: {:?}",
        errors
    );
}

#[test]
fn test_static_value_unresolved_template_placeholders() {
    let mut foo = base_var("A variable");
    foo.source = Some("static".to_string());
    foo.values = Some(smap(&[("local", "{missing_key}")]));
    let schema = base_schema(
        &[("local", smap(&[("project", "test")]))],
        &[("local", ".env")],
        vec![],
        vec![("FOO", foo)],
    );
    let errors = validate_schema(&schema);
    assert!(
        errors.iter().any(|e| {
            e.contains("variables.FOO.values.local")
                && e.contains("\"{missing_key}\"")
                && e.contains("environments.local.missing_key")
        }),
        "Expected unresolved placeholder error for static value, got: {:?}",
        errors
    );
}

#[test]
fn test_v2_static_resolver_value_unresolved_template_placeholders() {
    let mut foo = base_var("A variable");
    foo.resolvers = Some(vec![resolver(
        &["local"],
        "static",
        Some(smap(&[("local", "{missing_key}")])),
    )]);
    let schema = base_schema(
        &[("local", smap(&[("project", "test")]))],
        &[("local", ".env")],
        vec![],
        vec![("FOO", foo)],
    );
    let errors = validate_schema(&schema);
    assert!(
        errors.iter().any(|e| {
            e.contains("variables.FOO.resolvers[1].values.local")
                && e.contains("\"{missing_key}\"")
        }),
        "Expected unresolved placeholder error for static resolver value, got: {:?}",
        errors
    );
}

#[test]
fn test_undefined_source() {
    let mut foo = base_var("A variable");
    foo.source = Some("nonexistent".to_string());
    let schema = base_schema(
        &[("local", smap(&[("project", "test")]))],
        &[("local", ".env")],
        vec![],
        vec![("FOO", foo)],
    );
    let errors = validate_schema(&schema);
    assert!(errors.iter().any(|e| e.contains("nonexistent")));
}

#[test]
fn test_static_without_values() {
    let mut foo = base_var("A variable");
    foo.source = Some("static".to_string());
    let schema = base_schema(
        &[("local", smap(&[("project", "test")]))],
        &[("local", ".env")],
        vec![],
        vec![("FOO", foo)],
    );
    let errors = validate_schema(&schema);
    assert!(errors.iter().any(|e| e.contains("no values map")));
}

#[test]
fn test_undefined_environment_in_variable() {
    let mut foo = base_var("A variable");
    foo.source = Some("static".to_string());
    foo.environments = Some(vec!["local".to_string(), "production".to_string()]);
    foo.values = Some(smap(&[("local", "bar"), ("production", "baz")]));
    let schema = base_schema(
        &[("local", smap(&[("project", "test")]))],
        &[("local", ".env")],
        vec![],
        vec![("FOO", foo)],
    );
    let errors = validate_schema(&schema);
    assert!(errors.iter().any(|e| e.contains("production")));
}

#[test]
fn unsupported_version_reports_one_error() {
    let mut schema = base_schema(&[("local", smap(&[]))], &[("local", ".env")], vec![], vec![]);
    schema.schema_version = "1".to_string();
    assert_eq!(
        validate_schema(&schema),
        vec!["Unsupported schema_version: \"1\". Expected \"2\".".to_string()]
    );
}

#[test]
fn empty_destination_is_reported() {
    let schema = base_schema(&[("local", smap(&[]))], &[], vec![], vec![]);
    assert_eq!(
        validate_schema(&schema),
        vec!["metadata.destination must have at least one environment entry.".to_string()]
    );
}

#[test]
fn destination_must_reference_defined_environment() {
    let schema = base_schema(&[("local", smap(&[]))], &[("prod", ".env.prod")], vec![], vec![]);
    assert_eq!(
        validate_schema(&schema),
        vec![
            "metadata.destination references environment \"prod\" which is not defined in environments."
                .to_string(),
        ]
    );
}

#[test]
fn builtin_source_names_cannot_be_redefined() {
    let schema = base_schema(
        &[("local", smap(&[]))],
        &[("local", ".env")],
        vec![("manual", source("x")), ("static", source("y"))],
        vec![],
    );
    assert_eq!(
        validate_schema(&schema),
        vec![
            "Source name \"static\" is built-in and must not be redefined.".to_string(),
            "Source name \"manual\" is built-in and must not be redefined.".to_string(),
        ]
    );
}

#[test]
fn blank_description_is_reported() {
    let mut foo = base_var(" \t\n");
    foo.source = Some("manual".to_string());
    let schema = base_schema(
        &[("local", smap(&[]))],
        &[("local", ".env")],
        vec![],
        vec![("FOO", foo)],
    );
    assert_eq!(
        validate_schema(&schema),
        vec!["FOO: description must not be empty.".to_string()]
    );
}

#[test]
fn missing_source_field_is_reported() {
    let foo = base_var("A variable");
    let schema = base_schema(
        &[("local", smap(&[]))],
        &[("local", ".env")],
        vec![],
        vec![("FOO", foo)],
    );
    assert_eq!(
        validate_schema(&schema),
        vec!["FOO: missing required field \"source\".".to_string()]
    );
}

#[test]
fn unresolved_static_value_message_is_exact() {
    let mut foo = base_var("A variable");
    foo.source = Some("static".to_string());
    foo.values = Some(smap(&[("local", "{b} and {a} and {b}")]));
    let schema = base_schema(
        &[("local", smap(&[]))],
        &[("local", ".env")],
        vec![],
        vec![("FOO", foo)],
    );
    // The missing names come out deduplicated and sorted.
    assert_eq!(
        validate_schema(&schema),
        vec![
            "variables.FOO.values.local: static value contains unresolved template placeholders: \
             \"{a}\", \"{b}\". Fix: add environments.local.a, environments.local.b \
             (or remove the placeholders)."
                .to_string(),
        ]
    );
}
