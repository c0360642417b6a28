use envgen::commands::{resolve_output_path, ListFormat};
use envgen::resolver::expand_instructions;
use envgen::template::build_context;
use envgen::types::{StrMap, Variable, VariableResolver};

fn smap(pairs: &[(&str, &str)]) -> StrMap {
    let mut m = StrMap::new();
    for (k, v) in pairs {
        m.set(k.to_string(), v.to_string());
    }
    m
}

#[test]
fn list_format_reads_names() {
    assert!(matches!(ListFormat::from_str("table"), Ok(ListFormat::Table)));
    assert!(matches!(ListFormat::from_str("json"), Ok(ListFormat::Json)));
    let err = ListFormat::from_str("csv").unwrap_err();
    assert_eq!(err, "Unknown format: \"csv\". Expected \"table\" or \"json\".");
}

#[test]
fn output_path_resolution() {
    assert_eq!(
        resolve_output_path(None, false, "env.dev.yaml"),
        "env.dev.yaml"
    );
    assert_eq!(
        resolve_output_path(Some("custom.yaml".to_string()), false, "env.dev.yaml"),
        "custom.yaml"
    );
    assert_eq!(
        resolve_output_path(Some("configs".to_string()), true, "env.dev.yaml"),
        "configs/env.dev.yaml"
    );
}

#[test]
fn expand_instructions_is_best_effort() {
    let ctx = build_context("dev", &smap(&[("url", "https://example.test")]), "K");
    assert_eq!(
        expand_instructions("open {url} as {key}", &ctx),
        "open https://example.test as K"
    );
    assert_eq!(
        expand_instructions("see {nowhere}", &ctx),
        "see {nowhere}"
    );
}

fn base_var() -> Variable {
    Variable {
        description: "d".to_string(),
        sensitive: true,
        source: None,
        source_key: None,
        source_instructions: None,
        environments: None,
        values: None,
        resolvers: None,
        required: true,
        notes: None,
    }
}

fn resolver(envs: &[&str], src: &str, key: Option<&str>, values: Option<StrMap>) -> VariableResolver {
    VariableResolver {
        environments: envs.iter().map(|e| e.to_string()).collect(),
        source: src.to_string(),
        label: None,
        url: None,
        description: None,
        source_key: key.map(|k| k.to_string()),
        values,
    }
}

#[test]
fn variable_applies_to_listed_environments_only() {
    let mut v = base_var();
    assert!(v.applies_to("anything"));
    v.environments = Some(vec!["dev".to_string(), "prod".to_string()]);
    assert!(v.applies_to("dev"));
    assert!(!v.applies_to("staging"));
}

#[test]
fn resolver_selection_is_first_match() {
    let mut v = base_var();
    v.resolvers = Some(vec![
        resolver(&["dev"], "first", None, None),
        resolver(&["dev", "prod"], "second", None, None),
    ]);
    assert_eq!(v.resolver_for_env("dev").unwrap().source, "first");
    assert_eq!(v.resolver_for_env("prod").unwrap().source, "second");
    assert!(v.resolver_for_env("other").is_none());
}

#[test]
fn effective_source_prefers_resolver() {
    let mut v = base_var();
    v.source = Some("fallback".to_string());
    v.resolvers = Some(vec![resolver(&["dev"], "from-resolver", None, None)]);
    assert_eq!(v.effective_source_for_env("dev"), Some("from-resolver"));
    assert_eq!(v.effective_source_for_env("prod"), Some("fallback"));
}

#[test]
fn effective_key_falls_back_to_variable_name() {
    let mut v = base_var();
    assert_eq!(v.effective_key_for_env("NAME", "dev"), "NAME");
    v.source_key = Some("VKEY".to_string());
    assert_eq!(v.effective_key_for_env("NAME", "dev"), "VKEY");
    v.resolvers = Some(vec![resolver(&["dev"], "s", Some("RKEY"), None)]);
    assert_eq!(v.effective_key_for_env("NAME", "dev"), "RKEY");
    assert_eq!(v.effective_key_for_env("NAME", "prod"), "VKEY");
}

#[test]
fn values_for_env_prefers_resolver_values() {
    let mut v = base_var();
    v.values = Some(smap(&[("dev", "var-level")]));
    v.resolvers = Some(vec![resolver(
        &["dev"],
        "static",
        None,
        Some(smap(&[("dev", "resolver-level")])),
    )]);
    assert_eq!(
        v.values_for_env("dev").unwrap().get("dev").unwrap(),
        "resolver-level"
    );
    assert_eq!(
        v.values_for_env("prod").unwrap().get("dev").unwrap(),
        "var-level"
    );
}

#[test]
fn strmap_set_replaces_and_appends() {
    let mut m = StrMap::new();
    m.set("a".to_string(), "1".to_string());
    m.set("b".to_string(), "2".to_string());
    m.set("a".to_string(), "3".to_string());
    assert_eq!(m.get("a").unwrap(), "3");
    assert_eq!(m.get("b").unwrap(), "2");
    assert_eq!(m.len(), 2);
    assert_eq!(m.keys(), vec!["a".to_string(), "b".to_string()]);
    assert!(m.contains_key("a"));
    assert!(!m.contains_key("c"));
}
