use joat::body::get_vars_context;
use joat::config::get_yaml_config;
use joat::context::Context;
use joat::errors::ConfigError;
use joat::http::Method;
use joat::json::JsonValue;
use joat::request::{
    build_request_plan, combine_query_params, inject_oauth_header, resolve_oauth_config,
};
use joat::yaml::Yaml;

fn scmd(name: &str, options: Vec<(&str, Yaml)>) -> Yaml {
    Yaml::Hash(vec![(
        name.to_string(),
        Yaml::Hash(
            options
                .into_iter()
                .map(|(k, v)| (k.to_string(), v))
                .collect(),
        ),
    )])
}

fn layer(pairs: Vec<(&str, Yaml)>, scmds: Vec<Yaml>) -> Yaml {
    let mut entries: Vec<(String, Yaml)> = pairs
        .into_iter()
        .map(|(k, v)| (k.to_string(), v))
        .collect();
    entries.push(("subcommands".to_string(), Yaml::Array(scmds)));
    Yaml::Hash(entries)
}

#[test]
fn one_layer_resolves_version_and_appends_auto_complete() {
    let l = layer(
        vec![("version", Yaml::Str("2.0".to_string()))],
        vec![scmd("list", vec![("path", Yaml::Str("items".to_string()))])],
    );
    let tree = get_yaml_config("gh", "joat", "0.9.0", vec![l]).unwrap();
    assert_eq!(
        tree.lookup("version"),
        Some(&Yaml::Str("2.0 (joat 0.9.0)".to_string()))
    );
    let scmds = match tree.lookup("subcommands").unwrap() {
        Yaml::Array(v) => v,
        other => panic!("not an array: {:?}", other),
    };
    assert_eq!(scmds.len(), 2);
    assert!(scmds[1].lookup("auto_complete").is_some());
}

#[test]
fn closer_layer_wins_through_the_whole_pipeline() {
    let close = layer(
        vec![
            ("version", Yaml::Str("1".to_string())),
            ("base_endpoint", Yaml::Str("http://close/".to_string())),
        ],
        vec![scmd("list", vec![("path", Yaml::Str("close-items".to_string()))])],
    );
    let far = layer(
        vec![
            ("version", Yaml::Str("9".to_string())),
            ("base_endpoint", Yaml::Str("http://far/".to_string())),
            ("extra", Yaml::Str("survives".to_string())),
        ],
        vec![
            scmd("list", vec![("path", Yaml::Str("far-items".to_string()))]),
            scmd("old", vec![("path", Yaml::Str("old-items".to_string()))]),
        ],
    );
    let tree = get_yaml_config("joat", "joat", "0.9.0", vec![close, far]).unwrap();
    assert_eq!(
        tree.lookup("base_endpoint"),
        Some(&Yaml::Str("http://close/".to_string()))
    );
    assert_eq!(tree.lookup("extra"), Some(&Yaml::Str("survives".to_string())));
    assert_eq!(tree.lookup("version"), Some(&Yaml::Str("1".to_string())));
    let scmds = match tree.lookup("subcommands").unwrap() {
        Yaml::Array(v) => v,
        other => panic!("not an array: {:?}", other),
    };
    // list (close wins), old (far only), auto_complete (appended).
    assert_eq!(scmds.len(), 3);
    let list = scmds[0].lookup("list").unwrap();
    assert_eq!(
        list.lookup("path"),
        Some(&Yaml::Str("close-items".to_string()))
    );
    assert!(scmds[1].lookup("old").is_some());
    assert!(scmds[2].lookup("auto_complete").is_some());
}

#[test]
fn unmergeable_layers_are_a_fatal_error() {
    let close = layer(vec![("version", Yaml::Str("1".to_string()))], vec![]);
    // The second layer is a mapping without a subcommands array.
    let far = Yaml::Hash(vec![("extra".to_string(), Yaml::Int(1))]);
    assert_eq!(
        get_yaml_config("gh", "joat", "0.9.0", vec![close, far]).unwrap_err(),
        ConfigError::SubcommandsMissing
    );
}

#[test]
fn missing_version_fails_the_pipeline() {
    let l = layer(vec![], vec![scmd("list", vec![])]);
    assert_eq!(
        get_yaml_config("gh", "joat", "0.9.0", vec![l]).unwrap_err(),
        ConfigError::VersionMissing
    );
}

#[test]
fn no_layers_is_a_fatal_error() {
    assert_eq!(
        get_yaml_config("gh", "joat", "0.9.0", vec![]).unwrap_err(),
        ConfigError::NoConfigFound
    );
}

#[test]
fn vars_render_against_the_environment_only() {
    let tree = Yaml::Hash(vec![(
        "vars".to_string(),
        Yaml::Hash(vec![(
            "greeting".to_string(),
            Yaml::Str("hi {{env.USER}}".to_string()),
        )]),
    )]);
    let mut env_ctx = Context::new();
    env_ctx.insert(
        "env".to_string(),
        JsonValue::Object(vec![("USER".to_string(), JsonValue::Str("sam".to_string()))]),
    );
    let vars = get_vars_context(&tree, &env_ctx).unwrap();
    assert_eq!(
        vars,
        JsonValue::Object(vec![(
            "greeting".to_string(),
            JsonValue::Str("hi sam".to_string())
        )])
    );
}

#[test]
fn subcommand_query_params_override_tree_query_params() {
    let scmd_qp = Yaml::Hash(vec![
        ("q".to_string(), Yaml::Str("from-scmd".to_string())),
        ("s".to_string(), Yaml::Str("only-scmd".to_string())),
    ]);
    let tree_qp = Yaml::Hash(vec![
        ("q".to_string(), Yaml::Str("from-tree".to_string())),
        ("t".to_string(), Yaml::Str("only-tree".to_string())),
    ]);
    let ctx = Context::new();
    let combined = combine_query_params(&scmd_qp, &tree_qp, &ctx).unwrap();
    assert_eq!(
        combined,
        vec![
            ("q".to_string(), JsonValue::Str("from-scmd".to_string())),
            ("s".to_string(), JsonValue::Str("only-scmd".to_string())),
            ("t".to_string(), JsonValue::Str("only-tree".to_string())),
        ]
    );
}

#[test]
fn build_request_plan_assembles_everything() {
    let tree = Yaml::Hash(vec![
        ("base_endpoint".to_string(), Yaml::Str("http://x/".to_string())),
        (
            "headers".to_string(),
            Yaml::Hash(vec![(
                "x-user".to_string(),
                Yaml::Str("{{args.name}}".to_string()),
            )]),
        ),
    ]);
    let subcmd = Yaml::Hash(vec![
        ("path".to_string(), Yaml::Str("items".to_string())),
        (
            "body".to_string(),
            Yaml::Hash(vec![("count".to_string(), Yaml::Str("42".to_string()))]),
        ),
        (
            "query_params".to_string(),
            Yaml::Hash(vec![("q".to_string(), Yaml::Str("{{args.name}}".to_string()))]),
        ),
    ]);
    let mut ctx = Context::new();
    ctx.insert(
        "args".to_string(),
        JsonValue::Object(vec![("name".to_string(), JsonValue::Str("foo".to_string()))]),
    );
    let (plan, oauth) = build_request_plan(&tree, &subcmd, &ctx).unwrap();
    assert_eq!(plan.method, Method::Get);
    assert_eq!(plan.endpoint, "http://x/items?q=foo");
    assert_eq!(
        plan.headers,
        vec![("x-user".to_string(), JsonValue::Str("foo".to_string()))]
    );
    assert_eq!(
        plan.body,
        vec![("count".to_string(), JsonValue::NumLit("42".to_string()))]
    );
    assert!(plan.form.is_empty());
    assert!(oauth.is_none());
}

#[test]
fn oauth_block_is_resolved_and_injected() {
    let oauth_yaml = Yaml::Hash(vec![
        ("client_id".to_string(), Yaml::Str("id".to_string())),
        ("client_secret".to_string(), Yaml::Str("sec".to_string())),
        ("auth_url".to_string(), Yaml::Str("http://a".to_string())),
        ("token_url".to_string(), Yaml::Str("http://t".to_string())),
        ("header_key".to_string(), Yaml::Str("Authorization".to_string())),
    ]);
    let ctx = Context::new();
    let cfg = resolve_oauth_config(&oauth_yaml, &ctx).unwrap();
    assert_eq!(cfg.client_id, "id");
    assert_eq!(cfg.header_key, "Authorization");

    let tree = Yaml::Hash(vec![
        ("base_endpoint".to_string(), Yaml::Str("http://x/".to_string())),
        ("oauth".to_string(), oauth_yaml),
    ]);
    let subcmd = Yaml::Hash(vec![("path".to_string(), Yaml::Str("items".to_string()))]);
    let (mut plan, oauth) = build_request_plan(&tree, &subcmd, &ctx).unwrap();
    let cfg = oauth.unwrap();
    inject_oauth_header(&mut plan, cfg.header_key, "Bearer tok".to_string());
    assert_eq!(
        plan.headers,
        vec![(
            "Authorization".to_string(),
            JsonValue::Str("Bearer tok".to_string())
        )]
    );
}

#[test]
fn missing_path_is_fatal_for_request_subcommands() {
    let tree = Yaml::Hash(vec![]);
    let subcmd = Yaml::Hash(vec![]);
    let ctx = Context::new();
    assert_eq!(
        build_request_plan(&tree, &subcmd, &ctx).unwrap_err(),
        ConfigError::KeyNotString("path".to_string())
    );
}

#[test]
fn undefined_template_variable_is_fatal() {
    let tree = Yaml::Hash(vec![(
        "base_endpoint".to_string(),
        Yaml::Str("http://{{vars.missing}}/".to_string()),
    )]);
    let subcmd = Yaml::Hash(vec![("path".to_string(), Yaml::Str("items".to_string()))]);
    let ctx = Context::new();
    match build_request_plan(&tree, &subcmd, &ctx) {
        Err(ConfigError::TemplateFailed(_)) => {}
        other => panic!("expected a template failure, got {:?}", other),
    }
}
