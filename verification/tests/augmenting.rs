use joat::augment::{add_default_options, add_subcommands_path, override_version};
use joat::errors::ConfigError;
use joat::yaml::Yaml;

fn scmd(name: &str, options: Vec<(&str, Yaml)>) -> Yaml {
    Yaml::Hash(vec![(
        name.to_string(),
        Yaml::Hash(
            options
                .into_iter()
                .map(|(k, v)| (k.to_string(), v))
                .collect(),
        ),
    )])
}

fn tree_with(scmds: Vec<Yaml>) -> Yaml {
    Yaml::Hash(vec![
        ("name".to_string(), Yaml::Str("demo".to_string())),
        ("subcommands".to_string(), Yaml::Array(scmds)),
    ])
}

fn arg(name: &str, short: &str, long: &str) -> Yaml {
    Yaml::Hash(vec![(
        name.to_string(),
        Yaml::Hash(vec![
            ("short".to_string(), Yaml::Str(short.to_string())),
            ("long".to_string(), Yaml::Str(long.to_string())),
        ]),
    )])
}

fn scmd_options<'a>(tree: &'a Yaml, index: usize, name: &str) -> &'a Yaml {
    let scmds = match tree.lookup("subcommands").unwrap() {
        Yaml::Array(v) => v,
        other => panic!("not an array: {:?}", other),
    };
    scmds[index].lookup(name).unwrap()
}

fn arg_names(options: &Yaml) -> Vec<String> {
    let args = match options.lookup("args").unwrap() {
        Yaml::Array(v) => v,
        other => panic!("args is not an array: {:?}", other),
    };
    args.iter()
        .map(|a| match a {
            Yaml::Hash(es) => es[0].0.clone(),
            other => panic!("arg is not a mapping: {:?}", other),
        })
        .collect()
}

#[test]
fn non_script_subcommand_gains_template_quiet_raw() {
    let tree = tree_with(vec![scmd("list", vec![("path", Yaml::Str("items".to_string()))])]);
    let augmented = add_default_options(tree).unwrap();
    let options = scmd_options(&augmented, 0, "list");
    assert_eq!(
        arg_names(options),
        vec!["template".to_string(), "quiet".to_string(), "raw_response".to_string()]
    );
}

#[test]
fn script_subcommand_gains_only_quiet_and_raw() {
    let tree = tree_with(vec![scmd("run", vec![("script", Yaml::Str("ls".to_string()))])]);
    let augmented = add_default_options(tree).unwrap();
    let options = scmd_options(&augmented, 0, "run");
    assert_eq!(arg_names(options), vec!["quiet".to_string(), "raw_response".to_string()]);
}

#[test]
fn declared_args_keep_their_order_before_injected_flags() {
    let tree = tree_with(vec![scmd(
        "list",
        vec![("args", Yaml::Array(vec![arg("name", "n", "name")]))],
    )]);
    let augmented = add_default_options(tree).unwrap();
    let options = scmd_options(&augmented, 0, "list");
    assert_eq!(
        arg_names(options),
        vec![
            "name".to_string(),
            "template".to_string(),
            "quiet".to_string(),
            "raw_response".to_string()
        ]
    );
}

#[test]
fn auto_complete_subcommand_is_appended() {
    let tree = tree_with(vec![scmd("list", vec![])]);
    let augmented = add_default_options(tree).unwrap();
    let scmds = match augmented.lookup("subcommands").unwrap() {
        Yaml::Array(v) => v,
        other => panic!("not an array: {:?}", other),
    };
    assert_eq!(scmds.len(), 2);
    let ac = scmds[1].lookup("auto_complete").unwrap();
    let args = match ac.lookup("args").unwrap() {
        Yaml::Array(v) => v,
        other => panic!("not an array: {:?}", other),
    };
    assert!(args[0].lookup("SHELL").is_some());
}

#[test]
fn reserved_short_flag_is_a_fatal_error() {
    let tree = tree_with(vec![scmd(
        "list",
        vec![("args", Yaml::Array(vec![arg("quick", "q", "quick")]))],
    )]);
    let err = add_default_options(tree).unwrap_err();
    assert_eq!(err, ConfigError::ReservedShortFlag("q".to_string()));
}

#[test]
fn reserved_long_flag_is_a_fatal_error() {
    let tree = tree_with(vec![scmd(
        "list",
        vec![("args", Yaml::Array(vec![arg("tpl", "x", "template")]))],
    )]);
    let err = add_default_options(tree).unwrap_err();
    assert_eq!(err, ConfigError::ReservedLongFlag("template".to_string()));
}

#[test]
fn script_subcommand_may_use_the_template_flag_name() {
    let tree = tree_with(vec![scmd(
        "run",
        vec![
            ("script", Yaml::Str("ls".to_string())),
            ("args", Yaml::Array(vec![arg("template", "t", "template")])),
        ],
    )]);
    assert!(add_default_options(tree).is_ok());
}

#[test]
fn own_template_flag_is_kept_and_not_injected_again() {
    // A subcommand that declares the reserved flag under its own name
    // keeps its declaration; only the missing defaults are injected.
    let tree = tree_with(vec![scmd(
        "list",
        vec![("args", Yaml::Array(vec![arg("template", "t", "template")]))],
    )]);
    let augmented = add_default_options(tree).unwrap();
    let options = scmd_options(&augmented, 0, "list");
    assert_eq!(
        arg_names(options),
        vec!["template".to_string(), "quiet".to_string(), "raw_response".to_string()]
    );
}

#[test]
fn own_quiet_and_raw_flags_are_kept_and_not_injected_again() {
    let tree = tree_with(vec![scmd(
        "list",
        vec![(
            "args",
            Yaml::Array(vec![
                arg("quiet", "q", "quiet"),
                arg("raw_response", "R", "raw_response"),
            ]),
        )]),
    ]);
    let augmented = add_default_options(tree).unwrap();
    let options = scmd_options(&augmented, 0, "list");
    assert_eq!(
        arg_names(options),
        vec!["quiet".to_string(), "raw_response".to_string(), "template".to_string()]
    );
}

#[test]
fn flag_injection_is_idempotent_per_subcommand() {
    // Augmenting twice injects nothing further into a subcommand: the
    // flags the first pass injected are recognized as already declared.
    let sample = || tree_with(vec![scmd("list", vec![("path", Yaml::Str("items".to_string()))])]);
    let once = add_default_options(sample()).unwrap();
    let twice = add_default_options(add_default_options(sample()).unwrap()).unwrap();
    assert_eq!(scmd_options(&twice, 0, "list"), scmd_options(&once, 0, "list"));
}

#[test]
fn version_is_kept_for_the_tool_itself() {
    let config = Yaml::Hash(vec![("version".to_string(), Yaml::Str("1.2.3".to_string()))]);
    let r = override_version("joat", "joat", "0.9.0", config).unwrap();
    assert_eq!(r.lookup("version"), Some(&Yaml::Str("1.2.3".to_string())));
}

#[test]
fn version_of_a_personality_names_the_tool() {
    let config = Yaml::Hash(vec![("version".to_string(), Yaml::Str("1.2.3".to_string()))]);
    let r = override_version("gh", "joat", "0.9.0", config).unwrap();
    assert_eq!(
        r.lookup("version"),
        Some(&Yaml::Str("1.2.3 (joat 0.9.0)".to_string()))
    );
}

#[test]
fn missing_version_is_fatal() {
    let config = Yaml::Hash(vec![]);
    assert_eq!(
        override_version("gh", "joat", "0.9.0", config).unwrap_err(),
        ConfigError::VersionMissing
    );
}

#[test]
fn layers_are_tagged_with_their_directory() {
    let tree = tree_with(vec![scmd("list", vec![])]);
    let tagged = add_subcommands_path(tree, "/home/user/.demo.joat/").unwrap();
    let options = scmd_options(&tagged, 0, "list");
    assert_eq!(
        options.lookup("scmd_config_base_path"),
        Some(&Yaml::Str("/home/user/.demo.joat/".to_string()))
    );
}
