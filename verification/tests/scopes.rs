use joat::context::{
    extend_context_for_response, get_args_context, get_env_context, get_scmd_context, Context,
};
use joat::dispatch::{choose_execution, ExecutionKind};
use joat::errors::ConfigError;
use joat::json::JsonValue;
use joat::oauth::{get_oauth_token, get_token_file_path, TokenDecision};
use joat::shell::{parse_shell_name, ShellKind};
use joat::text::{format_cmd_name, i64_to_dec, parse_i64, u64_to_dec};
use joat::yaml::Yaml;

#[test]
fn env_namespace_holds_every_pair_verbatim() {
    let env = get_env_context(vec![
        ("HOME".to_string(), "/home/u".to_string()),
        ("LANG".to_string(), "C".to_string()),
    ]);
    assert_eq!(
        env,
        JsonValue::Object(vec![
            ("HOME".to_string(), JsonValue::Str("/home/u".to_string())),
            ("LANG".to_string(), JsonValue::Str("C".to_string())),
        ])
    );
}

#[test]
fn args_namespace_maps_values_by_count() {
    let args = get_args_context(vec![
        ("many".to_string(), vec!["a".to_string(), "b".to_string()]),
        ("one".to_string(), vec!["v".to_string()]),
        ("flag".to_string(), vec![]),
    ]);
    assert_eq!(
        args,
        JsonValue::Object(vec![
            (
                "many".to_string(),
                JsonValue::Array(vec![
                    JsonValue::Str("a".to_string()),
                    JsonValue::Str("b".to_string()),
                ])
            ),
            ("one".to_string(), JsonValue::Str("v".to_string())),
            ("flag".to_string(), JsonValue::Bool(true)),
        ])
    );
}

#[test]
fn scmd_namespace_carries_the_layer_directory() {
    let scmd = Yaml::Hash(vec![(
        "scmd_config_base_path".to_string(),
        Yaml::Str("/cfg".to_string()),
    )]);
    assert_eq!(
        get_scmd_context(&scmd),
        JsonValue::Object(vec![(
            "scmd_config_base_path".to_string(),
            JsonValue::Str("/cfg".to_string())
        )])
    );
    assert_eq!(
        get_scmd_context(&Yaml::Hash(vec![])),
        JsonValue::Object(vec![])
    );
}

#[test]
fn response_extension_adds_two_namespaces() {
    let mut ctx = Context::new();
    ctx.insert("env".to_string(), JsonValue::Object(vec![]));
    extend_context_for_response(
        &mut ctx,
        JsonValue::Str("body".to_string()),
        vec![("content-type".to_string(), "text/plain".to_string())],
    );
    assert_eq!(ctx.get("response"), Some(&JsonValue::Str("body".to_string())));
    assert_eq!(
        ctx.get("response_headers"),
        Some(&JsonValue::Object(vec![(
            "content-type".to_string(),
            JsonValue::Str("text/plain".to_string())
        )]))
    );
    assert_eq!(ctx.get("env"), Some(&JsonValue::Object(vec![])));
}

#[test]
fn scope_serializes_as_one_json_object() {
    let mut ctx = Context::new();
    ctx.insert(
        "args".to_string(),
        JsonValue::Object(vec![("n".to_string(), JsonValue::Int(1))]),
    );
    assert_eq!(ctx.to_json_text(), "{\"args\":{\"n\":1}}");
}

#[test]
fn shell_names_parse_case_insensitively() {
    assert_eq!(parse_shell_name("zsh").unwrap(), ShellKind::Zsh);
    assert_eq!(parse_shell_name("ZSH").unwrap(), ShellKind::Zsh);
    assert_eq!(parse_shell_name("Bash").unwrap(), ShellKind::Bash);
    assert_eq!(parse_shell_name("fish").unwrap(), ShellKind::Fish);
    assert_eq!(parse_shell_name("PowerShell").unwrap(), ShellKind::PowerShell);
    assert_eq!(parse_shell_name("elvish").unwrap(), ShellKind::Elvish);
}

#[test]
fn unknown_shell_is_a_fatal_usage_error() {
    assert_eq!(
        parse_shell_name("tcsh").unwrap_err(),
        ConfigError::ShellNotSupported("tcsh".to_string())
    );
}

#[test]
fn command_name_is_the_path_suffix() {
    assert_eq!(format_cmd_name(&"/usr/bin/joat".to_string()), "joat");
    assert_eq!(format_cmd_name(&"gh".to_string()), "gh");
    assert_eq!(format_cmd_name(&"a/b/".to_string()), "");
}

#[test]
fn cached_token_short_circuits_the_flow() {
    assert_eq!(
        get_oauth_token(Some("tok".to_string())),
        TokenDecision::UseCached("tok".to_string())
    );
    assert_eq!(get_oauth_token(None), TokenDecision::RunFlow);
}

#[test]
fn token_file_path_is_keyed_by_application() {
    assert_eq!(
        get_token_file_path("/home/u", "gh"),
        "/home/u/.gh.joat/.gh.token"
    );
}

#[test]
fn decimal_printing_round_trips() {
    assert_eq!(u64_to_dec(0), "0");
    assert_eq!(u64_to_dec(90210), "90210");
    assert_eq!(i64_to_dec(-42), "-42");
    assert_eq!(i64_to_dec(i64::MIN), "-9223372036854775808");
}

#[test]
fn decimal_parsing_accepts_signs_and_rejects_junk() {
    assert_eq!(parse_i64("42"), Some(42));
    assert_eq!(parse_i64("+42"), Some(42));
    assert_eq!(parse_i64("-42"), Some(-42));
    assert_eq!(parse_i64("9223372036854775807"), Some(i64::MAX));
    assert_eq!(parse_i64("-9223372036854775808"), Some(i64::MIN));
    assert_eq!(parse_i64("9223372036854775808"), None);
    assert_eq!(parse_i64(""), None);
    assert_eq!(parse_i64("4x2"), None);
    assert_eq!(parse_i64("-"), None);
}

#[test]
fn dispatch_chooses_the_terminal_path() {
    let script_scmd = Yaml::Hash(vec![("script".to_string(), Yaml::Str("ls".to_string()))]);
    let request_scmd = Yaml::Hash(vec![("path".to_string(), Yaml::Str("x".to_string()))]);
    assert_eq!(
        choose_execution("joat", "joat", "init", &request_scmd),
        ExecutionKind::ToolInit
    );
    assert_eq!(
        choose_execution("gh", "joat", "init", &request_scmd),
        ExecutionKind::Request
    );
    assert_eq!(
        choose_execution("gh", "joat", "auto_complete", &request_scmd),
        ExecutionKind::AutoComplete
    );
    assert_eq!(
        choose_execution("gh", "joat", "run", &script_scmd),
        ExecutionKind::Script
    );
    assert_eq!(
        choose_execution("gh", "joat", "list", &request_scmd),
        ExecutionKind::Request
    );
}

#[test]
fn empty_or_null_script_takes_the_request_path() {
    let empty_script = Yaml::Hash(vec![("script".to_string(), Yaml::Str("".to_string()))]);
    let null_script = Yaml::Hash(vec![("script".to_string(), Yaml::Null)]);
    assert_eq!(
        choose_execution("gh", "joat", "run", &empty_script),
        ExecutionKind::Request
    );
    assert_eq!(
        choose_execution("gh", "joat", "run", &null_script),
        ExecutionKind::Request
    );
}
