use diagweave::naming::{constructor_name, is_valid_constructor_prefix, report_constructor_name, to_snake_case, variant_constructor_names};

#[test]
fn snake_case_of_camel_case() {
    assert_eq!(to_snake_case("InvalidToken"), "invalid_token");
    assert_eq!(to_snake_case("PermissionDenied"), "permission_denied");
    assert_eq!(to_snake_case("Timeout"), "timeout");
    assert_eq!(to_snake_case("HTTPError"), "http_error");
    assert_eq!(to_snake_case("already_snake"), "already_snake");
}

#[test]
fn constructor_names_with_prefix() {
    assert_eq!(constructor_name("InvalidToken", ""), "invalid_token");
    assert_eq!(constructor_name("InvalidToken", "new"), "new_invalid_token");
    assert_eq!(report_constructor_name("new_invalid_token"), "new_invalid_token_report");
}

#[test]
fn prefix_validation() {
    assert!(is_valid_constructor_prefix(""));
    assert!(is_valid_constructor_prefix("new_2"));
    assert!(!is_valid_constructor_prefix("New"));
    assert!(!is_valid_constructor_prefix("a-b"));
}

#[test]
fn constructor_collisions_are_refused() {
    let ok = variant_constructor_names(&vec!["A".to_string(), "BValue".to_string()], "").unwrap();
    assert_eq!(ok, vec!["a".to_string(), "b_value".to_string()]);
    let err = variant_constructor_names(&vec!["FooBar".to_string(), "Foo_bar".to_string()], "").unwrap_err();
    assert_eq!(err, "foo_bar");
}
