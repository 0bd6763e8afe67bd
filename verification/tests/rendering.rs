use joat::body::{coerce_body_value, get_hash_from_yaml};
use joat::context::Context;
use joat::errors::ConfigError;
use joat::json::{json_to_string, json_to_string_pretty, JsonValue};
use joat::request::{render_response, RenderPlan};
use joat::yaml::Yaml;

fn ctx_with_args(args: Vec<(&str, JsonValue)>) -> Context {
    let mut ctx = Context::new();
    ctx.insert(
        "args".to_string(),
        JsonValue::Object(args.into_iter().map(|(k, v)| (k.to_string(), v)).collect()),
    );
    ctx
}

#[test]
fn numeric_string_coerces_to_a_number() {
    assert_eq!(
        coerce_body_value("42".to_string()),
        Some(JsonValue::NumLit("42".to_string()))
    );
    assert_eq!(
        coerce_body_value("-3.5e2".to_string()),
        Some(JsonValue::NumLit("-3.5e2".to_string()))
    );
}

#[test]
fn boolean_strings_coerce_to_booleans() {
    assert_eq!(coerce_body_value("true".to_string()), Some(JsonValue::Bool(true)));
    assert_eq!(coerce_body_value("false".to_string()), Some(JsonValue::Bool(false)));
}

#[test]
fn empty_sentinel_omits_the_key() {
    assert_eq!(coerce_body_value("[[empty]]".to_string()), None);
}

#[test]
fn other_strings_stay_strings_unchanged() {
    assert_eq!(
        coerce_body_value("plain".to_string()),
        Some(JsonValue::Str("plain".to_string()))
    );
    assert_eq!(
        coerce_body_value("007".to_string()),
        Some(JsonValue::Str("007".to_string()))
    );
    assert_eq!(
        coerce_body_value("1e".to_string()),
        Some(JsonValue::Str("1e".to_string()))
    );
}

#[test]
fn deep_body_resolution_coerces_and_omits() {
    let body = Yaml::Hash(vec![
        ("n".to_string(), Yaml::Str("42".to_string())),
        ("b".to_string(), Yaml::Str("true".to_string())),
        ("gone".to_string(), Yaml::Str("[[empty]]".to_string())),
        ("s".to_string(), Yaml::Str("x".to_string())),
        ("i".to_string(), Yaml::Int(7)),
        (
            "nested".to_string(),
            Yaml::Hash(vec![("k".to_string(), Yaml::Str("false".to_string()))]),
        ),
    ]);
    let ctx = Context::new();
    let fs = get_hash_from_yaml(&body, &ctx, true).unwrap();
    assert_eq!(
        fs,
        vec![
            ("n".to_string(), JsonValue::NumLit("42".to_string())),
            ("b".to_string(), JsonValue::Bool(true)),
            ("s".to_string(), JsonValue::Str("x".to_string())),
            ("i".to_string(), JsonValue::Int(7)),
            (
                "nested".to_string(),
                JsonValue::Object(vec![("k".to_string(), JsonValue::Bool(false))])
            ),
        ]
    );
}

#[test]
fn shallow_headers_require_string_values() {
    let headers = Yaml::Hash(vec![("h".to_string(), Yaml::Int(1))]);
    let ctx = Context::new();
    assert_eq!(
        get_hash_from_yaml(&headers, &ctx, false).unwrap_err(),
        ConfigError::ValueNotString("h".to_string())
    );
}

#[test]
fn shallow_headers_render_templates() {
    let headers = Yaml::Hash(vec![(
        "auth".to_string(),
        Yaml::Str("Bearer {{args.token}}".to_string()),
    )]);
    let ctx = ctx_with_args(vec![("token", JsonValue::Str("abc".to_string()))]);
    let fs = get_hash_from_yaml(&headers, &ctx, false).unwrap();
    assert_eq!(
        fs,
        vec![("auth".to_string(), JsonValue::Str("Bearer abc".to_string()))]
    );
}

#[test]
fn compact_writer_matches_convention() {
    let v = JsonValue::Object(vec![
        ("a".to_string(), JsonValue::Int(1)),
        (
            "b".to_string(),
            JsonValue::Array(vec![
                JsonValue::Str("x\"y".to_string()),
                JsonValue::Null,
                JsonValue::Bool(true),
            ]),
        ),
    ]);
    assert_eq!(json_to_string(&v), "{\"a\":1,\"b\":[\"x\\\"y\",null,true]}");
}

#[test]
fn pretty_writer_matches_convention() {
    let v = JsonValue::Object(vec![("a".to_string(), JsonValue::Int(1))]);
    assert_eq!(json_to_string_pretty(&v), "{\n  \"a\": 1\n}");
}

#[test]
fn pretty_writer_nests_with_two_space_indent() {
    let v = JsonValue::Object(vec![(
        "a".to_string(),
        JsonValue::Object(vec![("b".to_string(), JsonValue::Array(vec![JsonValue::Int(1)]))]),
    )]);
    assert_eq!(
        json_to_string_pretty(&v),
        "{\n  \"a\": {\n    \"b\": [\n      1\n    ]\n  }\n}"
    );
}

#[test]
fn writer_escapes_control_characters() {
    let v = JsonValue::Str("a\nb\t\u{1}".to_string());
    assert_eq!(json_to_string(&v), "\"a\\nb\\t\\u0001\"");
}

#[test]
fn writer_prints_integer_extremes() {
    assert_eq!(json_to_string(&JsonValue::Int(i64::MIN)), "-9223372036854775808");
    assert_eq!(json_to_string(&JsonValue::Int(i64::MAX)), "9223372036854775807");
    assert_eq!(json_to_string(&JsonValue::Int(0)), "0");
}

#[test]
fn quiet_produces_no_output_at_all() {
    let ctx = ctx_with_args(vec![
        ("quiet", JsonValue::Bool(true)),
        ("raw_response", JsonValue::Bool(true)),
        ("template", JsonValue::Str("t".to_string())),
    ]);
    let body = JsonValue::Object(vec![("a".to_string(), JsonValue::Int(1))]);
    let subcmd = Yaml::Hash(vec![]);
    assert_eq!(
        render_response(&ctx, &subcmd, &body).unwrap(),
        RenderPlan::Silent
    );
}

#[test]
fn raw_response_prints_compact_json() {
    let ctx = ctx_with_args(vec![("raw_response", JsonValue::Bool(true))]);
    let body = JsonValue::Object(vec![("a".to_string(), JsonValue::Int(1))]);
    let subcmd = Yaml::Hash(vec![]);
    assert_eq!(
        render_response(&ctx, &subcmd, &body).unwrap(),
        RenderPlan::RawJson("{\"a\":1}".to_string())
    );
}

#[test]
fn template_json_pretty_prints() {
    let ctx = ctx_with_args(vec![("template", JsonValue::Str("json".to_string()))]);
    let body = JsonValue::Object(vec![("a".to_string(), JsonValue::Int(1))]);
    let subcmd = Yaml::Hash(vec![]);
    assert_eq!(
        render_response(&ctx, &subcmd, &body).unwrap(),
        RenderPlan::PrettyJson("{\n  \"a\": 1\n}".to_string())
    );
}

#[test]
fn template_argument_selects_named_template() {
    let ctx = ctx_with_args(vec![("template", JsonValue::Str("mine".to_string()))]);
    let body = JsonValue::Null;
    let subcmd = Yaml::Hash(vec![]);
    assert_eq!(
        render_response(&ctx, &subcmd, &body).unwrap(),
        RenderPlan::NamedTemplate("mine".to_string())
    );
}

#[test]
fn declared_response_template_is_used_next() {
    let ctx = ctx_with_args(vec![]);
    let body = JsonValue::Null;
    let subcmd = Yaml::Hash(vec![(
        "response_template".to_string(),
        Yaml::Str("decl".to_string()),
    )]);
    assert_eq!(
        render_response(&ctx, &subcmd, &body).unwrap(),
        RenderPlan::NamedTemplate("decl".to_string())
    );
}

#[test]
fn default_rendering_is_pretty_json() {
    let ctx = ctx_with_args(vec![]);
    let body = JsonValue::Object(vec![("a".to_string(), JsonValue::Int(1))]);
    let subcmd = Yaml::Hash(vec![]);
    assert_eq!(
        render_response(&ctx, &subcmd, &body).unwrap(),
        RenderPlan::PrettyJson("{\n  \"a\": 1\n}".to_string())
    );
}

#[test]
fn non_string_response_template_is_fatal() {
    let ctx = ctx_with_args(vec![]);
    let body = JsonValue::Null;
    let subcmd = Yaml::Hash(vec![("response_template".to_string(), Yaml::Int(3))]);
    assert_eq!(
        render_response(&ctx, &subcmd, &body).unwrap_err(),
        ConfigError::KeyNotString("response_template".to_string())
    );
}

#[test]
fn non_string_template_argument_is_fatal() {
    let ctx = ctx_with_args(vec![("template", JsonValue::Bool(true))]);
    let body = JsonValue::Null;
    let subcmd = Yaml::Hash(vec![]);
    assert_eq!(
        render_response(&ctx, &subcmd, &body).unwrap_err(),
        ConfigError::TemplateArgNotString
    );
}
