use joat::errors::ConfigError;
use joat::script::{check_recursion_count, get_terminal_width, prepare_script};
use joat::context::Context;
use joat::json::JsonValue;
use joat::yaml::Yaml;

fn tree_with_max(max: i64) -> Yaml {
    Yaml::Hash(vec![("max_recursion_count".to_string(), Yaml::Int(max))])
}

#[test]
fn fresh_counter_passes_and_increments() {
    let tree = tree_with_max(3);
    assert_eq!(check_recursion_count(&tree, None).unwrap(), 1);
}

#[test]
fn chain_of_length_n_succeeds_and_n_plus_one_fails() {
    let n: i64 = 3;
    let tree = tree_with_max(n);
    // The first invocation has no counter in its environment; each child
    // carries the incremented counter. Depths 1..=n succeed.
    let mut counter_env: Option<String> = None;
    for _depth in 1..=n {
        let next = check_recursion_count(&tree, counter_env.clone()).unwrap();
        counter_env = Some(next.to_string());
    }
    // Depth n + 1 fails, with the configured bound named.
    assert_eq!(
        check_recursion_count(&tree, counter_env).unwrap_err(),
        ConfigError::RecursionLimit(n)
    );
}

#[test]
fn default_bound_is_one_hundred() {
    let tree = Yaml::Hash(vec![]);
    assert_eq!(
        check_recursion_count(&tree, Some("99".to_string())).unwrap(),
        100
    );
    assert_eq!(
        check_recursion_count(&tree, Some("100".to_string())).unwrap_err(),
        ConfigError::RecursionLimit(100)
    );
}

#[test]
fn non_integer_counter_is_fatal() {
    let tree = tree_with_max(5);
    assert_eq!(
        check_recursion_count(&tree, Some("abc".to_string())).unwrap_err(),
        ConfigError::RecursionCountNotInt
    );
}

#[test]
fn non_integer_bound_is_fatal() {
    let tree = Yaml::Hash(vec![(
        "max_recursion_count".to_string(),
        Yaml::Str("lots".to_string()),
    )]);
    assert_eq!(
        check_recursion_count(&tree, None).unwrap_err(),
        ConfigError::MaxRecursionNotInt
    );
}

#[test]
fn columns_variable_overrides_terminal_width() {
    assert_eq!(get_terminal_width(Some("120".to_string()), Some(33)).unwrap(), 120);
}

#[test]
fn queried_width_is_used_without_columns() {
    assert_eq!(get_terminal_width(None, Some(33)).unwrap(), 33);
}

#[test]
fn width_defaults_to_eighty() {
    assert_eq!(get_terminal_width(None, None).unwrap(), 80);
}

#[test]
fn non_integer_columns_is_fatal() {
    assert_eq!(
        get_terminal_width(Some("wide".to_string()), None).unwrap_err(),
        ConfigError::ColumnsNotInt
    );
}

#[test]
fn prepare_script_renders_and_guards() {
    let tree = tree_with_max(5);
    let subcmd = Yaml::Hash(vec![(
        "script".to_string(),
        Yaml::Str("echo {{args.name}}".to_string()),
    )]);
    let mut ctx = Context::new();
    ctx.insert(
        "args".to_string(),
        JsonValue::Object(vec![
            ("name".to_string(), JsonValue::Str("w".to_string())),
            ("quiet".to_string(), JsonValue::Bool(true)),
        ]),
    );
    let plan = prepare_script(&tree, &subcmd, &ctx, Some("2".to_string()), None, Some(90))
        .unwrap();
    assert_eq!(plan.script, "echo w");
    assert_eq!(plan.columns, 90);
    assert_eq!(plan.recursion_count, 3);
    assert!(plan.quiet);
}

#[test]
fn prepare_script_stops_at_the_bound_before_any_work() {
    let tree = tree_with_max(2);
    let subcmd = Yaml::Hash(vec![("script".to_string(), Yaml::Str("ls".to_string()))]);
    let mut ctx = Context::new();
    ctx.insert("args".to_string(), JsonValue::Object(vec![]));
    assert_eq!(
        prepare_script(&tree, &subcmd, &ctx, Some("2".to_string()), None, None).unwrap_err(),
        ConfigError::RecursionLimit(2)
    );
}
