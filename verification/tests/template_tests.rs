use envgen::template::{build_context, expand_template, extract_placeholders};
use envgen::types::StrMap;

#[test]
fn test_extract_placeholders() {
    let template = "firebase functions:secrets:access {key} --project {firebase_project}";
    let placeholders = extract_placeholders(template);
    assert_eq!(placeholders, vec!["key", "firebase_project"]);
}

#[test]
fn test_extract_no_placeholders() {
    let placeholders = extract_placeholders("no placeholders here");
    assert!(placeholders.is_empty());
}

#[test]
fn test_extract_skips_malformed_placeholders() {
    // A brace not followed by a name, a digit-led name, and nesting.
    assert_eq!(extract_placeholders("{} {1x} {{abc}"), vec!["abc"]);
    assert_eq!(extract_placeholders("{a-b} {a_b}"), vec!["a_b"]);
}

#[test]
fn test_expand_template() {
    let mut ctx = StrMap::new();
    ctx.set("key".to_string(), "MY_SECRET".to_string());
    ctx.set("project".to_string(), "my-project".to_string());

    let result = expand_template("echo {key} --project {project}", &ctx).unwrap();
    assert_eq!(result, "echo MY_SECRET --project my-project");
}

#[test]
fn test_expand_template_unresolved() {
    let ctx = StrMap::new();
    let result = expand_template("echo {missing}", &ctx);
    assert!(result.is_err());
    assert_eq!(
        result.unwrap_err(),
        "Unresolved template placeholders: missing"
    );
}

#[test]
fn test_expand_template_keeps_plain_text() {
    let ctx = StrMap::new();
    assert_eq!(expand_template("no braces", &ctx).unwrap(), "no braces");
    assert_eq!(expand_template("", &ctx).unwrap(), "");
}

#[test]
fn test_build_context_empty_config() {
    let cfg = StrMap::new();
    let ctx = build_context("dev", &cfg, "K");
    assert_eq!(ctx.get("environment").unwrap(), "dev");
    assert_eq!(ctx.get("key").unwrap(), "K");
    assert!(ctx.get("other").is_none());
}
