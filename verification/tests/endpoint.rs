use joat::context::Context;
use joat::http::{get_complete_endpoint, get_endpoint, get_endpoint_with_qp, get_method, Method};
use joat::json::JsonValue;

#[test]
fn http_test_get_string_from_yaml() {
    // Arrange
    let base_endpoint = "http://example.com".to_string();
    let path = "/path".to_string();

    // Act
    let endpoint = get_complete_endpoint(&base_endpoint, &path);

    // Assert
    assert_eq!("http://example.com/path", endpoint);
}

#[test]
fn test_stringify() {
    // Arrange
    let mut query_params = Vec::new();
    query_params.push((String::from("foo"), String::from("bar")));
    query_params.push((String::from("foo"), String::from("bar")));

    // Act
    let query_params_str = joat::http::stringify(query_params);

    // Assert
    assert_eq!("foo=bar&foo=bar", query_params_str);
}

#[test]
fn test_get_endpoint_with_qp() {
    // Arrange
    let endpoint = String::from("http://example.com/path");
    let mut query_params = Vec::new();
    query_params.push((String::from("foo"), JsonValue::Str("bar".to_string())));
    let context = Context::new();

    // Act
    let endpoint = get_endpoint_with_qp(endpoint, &query_params, &context).unwrap();

    // Assert
    assert_eq!("http://example.com/path?foo=bar", endpoint);
}

#[test]
fn test_get_endpoint_with_qp_empty_qp() {
    // Arrange
    let endpoint = String::from("http://example.com/path");
    let query_params = Vec::new();
    let context = Context::new();

    // Act
    let endpoint = get_endpoint_with_qp(endpoint, &query_params, &context).unwrap();

    // Assert
    assert_eq!("http://example.com/path", endpoint);
}

#[test]
fn test_get_endpoint() {
    // Arrange
    let base_endpoint = "http://example.com/";
    let path = "path/to/resource";
    let context = Context::new();
    let query_params = Vec::new();

    // Act
    let endpoint = get_endpoint(&base_endpoint, &path, &context, &query_params).unwrap();

    // Assert
    assert_eq!(endpoint, format!("{}{}", base_endpoint, path));
}

#[test]
fn endpoint_without_query_params_resolves_to_base_plus_path() {
    let context = Context::new();
    let query_params = Vec::new();
    let endpoint = get_endpoint("http://x/", "items", &context, &query_params).unwrap();
    assert_eq!("http://x/items", endpoint);
}

#[test]
fn endpoint_with_templated_query_param_resolves_argument() {
    let mut context = Context::new();
    context.insert(
        "args".to_string(),
        JsonValue::Object(vec![("name".to_string(), JsonValue::Str("foo".to_string()))]),
    );
    let query_params = vec![(
        "q".to_string(),
        JsonValue::Str("{{args.name}}".to_string()),
    )];
    let endpoint = get_endpoint("http://x/", "items", &context, &query_params).unwrap();
    assert_eq!("http://x/items?q=foo", endpoint);
}

#[test]
fn endpoint_with_literal_question_mark_keeps_query_params_off() {
    let context = Context::new();
    let query_params = vec![(
        "q".to_string(),
        JsonValue::Str("v".to_string()),
    )];
    let endpoint =
        get_endpoint_with_qp("http://x/items?fixed=1".to_string(), &query_params, &context)
            .unwrap();
    assert_eq!("http://x/items?fixed=1", endpoint);
}

#[test]
fn null_query_params_are_skipped() {
    let context = Context::new();
    let query_params = vec![
        ("a".to_string(), JsonValue::Null),
        ("b".to_string(), JsonValue::Str("2".to_string())),
    ];
    let endpoint =
        get_endpoint_with_qp("http://x/items".to_string(), &query_params, &context).unwrap();
    assert_eq!("http://x/items?b=2", endpoint);
}

#[test]
fn method_strings_select_methods() {
    assert_eq!(get_method(&"GET".to_string()), Method::Get);
    assert_eq!(get_method(&"PUT".to_string()), Method::Put);
    assert_eq!(get_method(&"POST".to_string()), Method::Post);
    assert_eq!(get_method(&"PATCH".to_string()), Method::Patch);
    assert_eq!(get_method(&"DELETE".to_string()), Method::Delete);
    assert_eq!(get_method(&"get".to_string()), Method::Get);
    assert_eq!(get_method(&"anything".to_string()), Method::Get);
    assert_eq!(Method::Delete.name(), "DELETE");
}
