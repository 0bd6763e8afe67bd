use joat::augment::add_default_options;
use joat::body::get_hash_from_yaml;
use joat::context::Context;
use joat::errors::ConfigError;
use joat::merge::{combine_scmd_yaml, combine_yaml_scmd_arrays};
use joat::text::parse_u16;
use joat::yaml::Yaml;

fn hash(pairs: Vec<(&str, Yaml)>) -> Yaml {
    Yaml::Hash(pairs.into_iter().map(|(k, v)| (k.to_string(), v)).collect())
}

#[test]
fn subcommand_element_that_is_no_mapping_is_fatal() {
    let r = combine_yaml_scmd_arrays(vec![Yaml::Str("oops".to_string())], vec![]);
    assert_eq!(r.unwrap_err(), ConfigError::SubcommandNotMapping);
}

#[test]
fn subcommand_element_without_a_name_is_fatal() {
    let r = combine_yaml_scmd_arrays(vec![Yaml::Hash(vec![])], vec![]);
    assert_eq!(r.unwrap_err(), ConfigError::SubcommandUnnamed);
}

#[test]
fn merging_trees_without_subcommands_is_fatal() {
    let a = hash(vec![("k", Yaml::Int(1))]);
    let b = hash(vec![("k", Yaml::Int(2))]);
    assert_eq!(
        combine_scmd_yaml(a, b).unwrap_err(),
        ConfigError::SubcommandsMissing
    );
}

#[test]
fn non_array_subcommands_value_is_fatal() {
    let a = hash(vec![("subcommands", Yaml::Str("x".to_string()))]);
    let b = hash(vec![("subcommands", Yaml::Array(vec![]))]);
    assert_eq!(
        combine_scmd_yaml(a, b).unwrap_err(),
        ConfigError::SubcommandsNotArray
    );
}

#[test]
fn non_array_args_value_is_fatal() {
    let tree = hash(vec![(
        "subcommands",
        Yaml::Array(vec![hash(vec![(
            "list",
            hash(vec![("args", Yaml::Str("oops".to_string()))]),
        )])]),
    )]);
    assert_eq!(
        add_default_options(tree).unwrap_err(),
        ConfigError::ArgsNotArray
    );
}

#[test]
fn non_mapping_headers_are_fatal() {
    let ctx = Context::new();
    assert_eq!(
        get_hash_from_yaml(&Yaml::Str("x".to_string()), &ctx, false).unwrap_err(),
        ConfigError::NotAMapping
    );
}

#[test]
fn missing_node_yields_an_empty_map() {
    let ctx = Context::new();
    assert!(get_hash_from_yaml(&Yaml::Bad, &ctx, true).unwrap().is_empty());
}

#[test]
fn error_messages_are_human_readable() {
    assert_eq!(
        ConfigError::ReservedShortFlag("q".to_string()).message(),
        "'short: q' is reserved, check your yml"
    );
    assert_eq!(
        ConfigError::ValueNotString("h".to_string()).message(),
        "Only string values are allowed for h"
    );
    assert_eq!(ConfigError::NoConfigFound.message(), "Could not find config file");
}

#[test]
fn u16_parsing_respects_the_range() {
    assert_eq!(parse_u16("65535"), Some(65535));
    assert_eq!(parse_u16("65536"), None);
    assert_eq!(parse_u16("+80"), Some(80));
    assert_eq!(parse_u16("-1"), None);
    assert_eq!(parse_u16(""), None);
}
