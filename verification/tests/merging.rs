use joat::merge::{combine_hash_yaml, combine_scmd_yaml};
use joat::yaml::Yaml;

fn scmd(name: &str, about: &str) -> Yaml {
    Yaml::Hash(vec![(
        name.to_string(),
        Yaml::Hash(vec![("about".to_string(), Yaml::Str(about.to_string()))]),
    )])
}

fn tree(pairs: Vec<(&str, Yaml)>, scmds: Vec<Yaml>) -> Yaml {
    let mut entries: Vec<(String, Yaml)> = pairs
        .into_iter()
        .map(|(k, v)| (k.to_string(), v))
        .collect();
    entries.push(("subcommands".to_string(), Yaml::Array(scmds)));
    Yaml::Hash(entries)
}

#[test]
fn overrider_scalar_wins_and_unique_keys_survive() {
    let a = Yaml::Hash(vec![
        ("k".to_string(), Yaml::Str("from-a".to_string())),
        ("only_a".to_string(), Yaml::Int(1)),
    ]);
    let b = Yaml::Hash(vec![
        ("k".to_string(), Yaml::Str("from-b".to_string())),
        ("only_b".to_string(), Yaml::Int(2)),
    ]);
    let merged = combine_hash_yaml(a, b);
    assert_eq!(merged.lookup("k"), Some(&Yaml::Str("from-a".to_string())));
    assert_eq!(merged.lookup("only_a"), Some(&Yaml::Int(1)));
    assert_eq!(merged.lookup("only_b"), Some(&Yaml::Int(2)));
}

#[test]
fn combine_hash_yaml_with_missing_sides() {
    let a = Yaml::Hash(vec![("k".to_string(), Yaml::Int(1))]);
    let merged = combine_hash_yaml(a, Yaml::Bad);
    assert_eq!(merged.lookup("k"), Some(&Yaml::Int(1)));

    let b = Yaml::Hash(vec![("k".to_string(), Yaml::Int(2))]);
    let merged = combine_hash_yaml(Yaml::Bad, b);
    assert_eq!(merged.lookup("k"), Some(&Yaml::Int(2)));

    let merged = combine_hash_yaml(Yaml::Str("x".to_string()), Yaml::Int(9));
    assert_eq!(merged, Yaml::Str("x".to_string()));
}

#[test]
fn subcommand_merge_keeps_overrider_order_then_unmatched() {
    let a = tree(
        vec![],
        vec![scmd("list", "a-list"), scmd("get", "a-get")],
    );
    let b = tree(
        vec![],
        vec![scmd("get", "b-get"), scmd("delete", "b-delete")],
    );
    let merged = combine_scmd_yaml(a, b).unwrap();
    let scmds = match merged.lookup("subcommands").unwrap() {
        Yaml::Array(v) => v.clone(),
        other => panic!("subcommands is not an array: {:?}", other),
    };
    assert_eq!(scmds.len(), 3);
    assert_eq!(scmds[0], scmd("list", "a-list"));
    assert_eq!(scmds[1], scmd("get", "a-get"));
    assert_eq!(scmds[2], scmd("delete", "b-delete"));
}

#[test]
fn subcommand_merge_requires_named_mappings() {
    let a = tree(vec![], vec![Yaml::Str("oops".to_string())]);
    let b = tree(vec![], vec![]);
    let r = combine_scmd_yaml(a, b);
    assert!(r.is_err());
}

#[test]
fn non_mapping_overrider_wins_verbatim() {
    let r = combine_scmd_yaml(Yaml::Int(4), Yaml::Hash(vec![])).unwrap();
    assert_eq!(r, Yaml::Int(4));
}
