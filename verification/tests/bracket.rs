use meteor::bracket::{
    extract_base_name, has_brackets, parse_bracket_notation, reverse_transform_key, transform_key, validate_index,
};
use meteor::error::MeteorError;

#[test]
fn test_transform_simple_index() {
    assert_eq!(transform_key("list[0]").unwrap(), "list__i_0");
    assert_eq!(transform_key("items[42]").unwrap(), "items__i_42");
}

#[test]
fn test_transform_multiple_indices() {
    assert_eq!(transform_key("grid[2,3]").unwrap(), "grid__i_2_3");
    assert_eq!(transform_key("matrix[x,y,z]").unwrap(), "matrix__i_x_y_z");
}

#[test]
fn test_transform_empty_brackets() {
    assert_eq!(transform_key("queue[]").unwrap(), "queue__i_APPEND");
    assert_eq!(transform_key("list[]").unwrap(), "list__i_APPEND");
}

#[test]
fn test_transform_no_brackets() {
    assert_eq!(transform_key("normal_key").unwrap(), "normal_key");
    assert_eq!(transform_key("snake_case").unwrap(), "snake_case");
}

#[test]
fn test_transform_errors() {
    assert!(transform_key("list[").is_err());
    assert!(transform_key("list]").is_err());
    assert!(transform_key("[0]").is_err());
    assert!(transform_key("list[grid[0]]").is_err());
}

#[test]
fn test_has_brackets() {
    assert!(has_brackets("list[0]"));
    assert!(has_brackets("grid[x,y]"));
    assert!(!has_brackets("normal_key"));
    assert!(!has_brackets("key_with_underscore"));
}

#[test]
fn bracket_test_extract_base_name() {
    assert_eq!(extract_base_name("list[0]").unwrap(), "list");
    assert_eq!(extract_base_name("grid[x,y]").unwrap(), "grid");
    assert_eq!(extract_base_name("normal_key").unwrap(), "normal_key");
}

#[test]
fn test_validate_index() {
    assert!(validate_index("0", "list[0]").is_ok());
    assert!(validate_index("variable_name", "list[variable_name]").is_ok());
    assert!(validate_index("x", "grid[x]").is_ok());
    assert!(validate_index("", "list[]").is_err());
    assert!(validate_index("a[b]", "list[a[b]]").is_err());
}

#[test]
fn test_whitespace_handling() {
    assert_eq!(transform_key("list[ 0 ]").unwrap(), "list__i_0");
    assert_eq!(transform_key("grid[ x , y ]").unwrap(), "grid__i_x_y");
}

#[test]
fn test_reverse_transform_numeric() {
    assert_eq!(reverse_transform_key("list__i_0").unwrap(), "list[0]");
    assert_eq!(reverse_transform_key("items__i_42").unwrap(), "items[42]");
}

#[test]
fn test_reverse_transform_multi_dimensional() {
    assert_eq!(reverse_transform_key("grid__i_2_3").unwrap(), "grid[2,3]");
    assert_eq!(reverse_transform_key("matrix__i_x_y_z").unwrap(), "matrix[x,y,z]");
}

#[test]
fn test_reverse_transform_append() {
    assert_eq!(reverse_transform_key("queue__i_APPEND").unwrap(), "queue[]");
    assert_eq!(reverse_transform_key("list__i_APPEND").unwrap(), "list[]");
}

#[test]
fn test_reverse_transform_named() {
    assert_eq!(reverse_transform_key("person__name").unwrap(), "person[name]");
    assert_eq!(reverse_transform_key("config__database").unwrap(), "config[database]");
}

#[test]
fn test_reverse_transform_no_dunder() {
    assert_eq!(reverse_transform_key("simple_key").unwrap(), "simple_key");
    assert_eq!(reverse_transform_key("button").unwrap(), "button");
}

#[test]
fn bracket_round_trip_examples() {
    for key in ["list[0]", "grid[2,3]", "queue[]", "plain"] {
        let flat = transform_key(key).unwrap();
        assert_eq!(reverse_transform_key(&flat).unwrap(), key);
    }
}

#[test]
fn bracket_parse_reports_missing_brackets() {
    match parse_bracket_notation("list]") {
        Err(MeteorError::InvalidBracketNotation { key, reason }) => {
            assert_eq!(key, "list]");
            assert_eq!(reason, "missing opening bracket");
        },
        other => panic!("unexpected: {:?}", other),
    }
    match parse_bracket_notation("list[0") {
        Err(MeteorError::InvalidBracketNotation { reason, .. }) => {
            assert_eq!(reason, "missing closing bracket");
        },
        other => panic!("unexpected: {:?}", other),
    }
    let (base, indices) = parse_bracket_notation("list[0,1]").unwrap();
    assert_eq!(base, "list");
    assert_eq!(indices, vec!["0".to_string(), "1".to_string()]);
}
