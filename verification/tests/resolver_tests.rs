use envgen::resolver::{build_command, resolve_static};
use envgen::template::build_context;
use envgen::types::StrMap;

fn smap(pairs: &[(&str, &str)]) -> StrMap {
    let mut m = StrMap::new();
    for (k, v) in pairs {
        m.set(k.to_string(), v.to_string());
    }
    m
}

#[test]
fn test_build_command() {
    let template = "firebase functions:secrets:access {key} --project {firebase_project}";
    let env_config = smap(&[("firebase_project", "my-proj")]);

    let cmd = build_command(template, "MY_SECRET", None, "staging", &env_config).unwrap();
    assert_eq!(
        cmd,
        "firebase functions:secrets:access MY_SECRET --project my-proj"
    );
}

#[test]
fn test_build_command_with_source_key() {
    let template = "echo {key}";
    let env_config = smap(&[]);

    let cmd = build_command(
        template,
        "VITE_GOOGLE_ID",
        Some("GOOGLE_ID"),
        "local",
        &env_config,
    )
    .unwrap();
    assert_eq!(cmd, "echo GOOGLE_ID");
}

#[test]
fn test_build_command_unresolved_reports_all() {
    let env_config = smap(&[]);
    let err = build_command("run {a} {b}", "V", None, "local", &env_config).unwrap_err();
    assert_eq!(err, "Unresolved template placeholders: a, b");
}

#[test]
fn test_resolve_static_simple() {
    let values = smap(&[("local", "hello")]);
    let env_config = smap(&[]);

    let result = resolve_static("MY_VAR", &values, "local", &env_config).unwrap();
    assert_eq!(result, "hello");
}

#[test]
fn test_resolve_static_with_template() {
    let values = smap(&[("local", "{project}-db")]);
    let env_config = smap(&[("project", "myapp")]);

    let result = resolve_static("DB_NAME", &values, "local", &env_config).unwrap();
    assert_eq!(result, "myapp-db");
}

#[test]
fn test_resolve_static_missing_env() {
    let values = smap(&[]);
    let env_config = smap(&[]);
    let result = resolve_static("MY_VAR", &values, "production", &env_config);
    assert!(result.is_err());
    assert_eq!(
        result.unwrap_err(),
        "MY_VAR: no static value defined for environment \"production\""
    );
}

#[test]
fn test_build_context() {
    let env_config = smap(&[("firebase_project", "my-proj")]);

    let ctx = build_context("staging", &env_config, "MY_KEY");
    assert_eq!(ctx.get("environment").unwrap(), "staging");
    assert_eq!(ctx.get("key").unwrap(), "MY_KEY");
    assert_eq!(ctx.get("firebase_project").unwrap(), "my-proj");
}

#[test]
fn test_build_context_overrides_reserved_keys() {
    let env_config = smap(&[("key", "shadowed"), ("environment", "shadowed")]);
    let ctx = build_context("prod", &env_config, "REAL");
    assert_eq!(ctx.get("key").unwrap(), "REAL");
    assert_eq!(ctx.get("environment").unwrap(), "prod");
}
