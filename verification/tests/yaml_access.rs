use joat::merge::combine_scmd_yaml;
use joat::yaml::{get_string_from_yaml, get_subcommand_from_yaml, get_yaml_string, Yaml};

fn create_sample_subcommand(name: &str) -> Yaml {
    let options = vec![(
        "about".to_string(),
        Yaml::Str("This is a sample scmd".to_string()),
    )];
    Yaml::Hash(vec![(name.to_string(), Yaml::Hash(options))])
}

fn create_sample_yaml(name_value: &str) -> Yaml {
    Yaml::Hash(vec![
        ("name".to_string(), Yaml::Str(name_value.to_string())),
        (
            "subcommands".to_string(),
            Yaml::Array(vec![
                create_sample_subcommand("scmd1"),
                create_sample_subcommand("scmd2"),
            ]),
        ),
    ])
}

#[test]
fn test_get_yaml_string() {
    // Arrange
    let sample_str = "sample_str";
    let yaml_str = Yaml::Str(sample_str.to_string());

    // Act, Assert
    assert_eq!(yaml_str, get_yaml_string(sample_str));
}

#[test]
fn yaml_test_get_string_from_yaml() {
    // Arrange
    let sample_str = "sample_str";
    let yaml_str = Yaml::Str(sample_str.to_string());

    // Act, Assert
    assert_eq!(sample_str, get_string_from_yaml(&yaml_str).unwrap());
}

#[test]
fn get_string_from_non_string_yaml_is_none() {
    let yaml_number = Yaml::Int(1);
    assert!(get_string_from_yaml(&yaml_number).is_none());
}

#[test]
fn test_get_subcommand_from_yaml() {
    // Arrange
    let yaml = create_sample_yaml("some random value");
    let scmd_about = "This is a sample scmd";

    // Act
    let subcommand = get_subcommand_from_yaml("scmd2", &yaml).unwrap();

    // Assert
    let about = subcommand.lookup("about").unwrap();
    assert_eq!(about, &get_yaml_string(scmd_about));
}

#[test]
fn missing_subcommand_is_none() {
    let yaml = create_sample_yaml("v");
    assert!(get_subcommand_from_yaml("nope", &yaml).is_none());
}

#[test]
fn test_combine_scmd_yaml_override_props() {
    // Arrange
    let final_value = "some random value";
    let other_value = "some other value";
    let overrider = create_sample_yaml(final_value);
    let overriden = create_sample_yaml(other_value);

    // Act
    let result = combine_scmd_yaml(overrider, overriden).unwrap();

    // Assert
    assert_eq!(result.lookup("name"), Some(&get_yaml_string(final_value)));
    assert_ne!(result.lookup("name"), Some(&get_yaml_string(other_value)));
}

#[test]
fn lookup_returns_first_match() {
    let yaml = Yaml::Hash(vec![
        ("k".to_string(), Yaml::Int(1)),
        ("k".to_string(), Yaml::Int(2)),
    ]);
    assert_eq!(yaml.lookup("k"), Some(&Yaml::Int(1)));
    assert_eq!(yaml.lookup("other"), None);
    assert_eq!(Yaml::Int(3).lookup("k"), None);
}

#[test]
fn badvalue_is_detected() {
    assert!(Yaml::Bad.is_badvalue());
    assert!(!Yaml::Null.is_badvalue());
}
