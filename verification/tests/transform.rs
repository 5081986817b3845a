use meteor::transform::{
    extract_base_name, needs_transformation, transform_key, transform_token, transform_token_batch,
    transform_value,
};

#[test]
fn test_transform_key() {
    assert_eq!(transform_key("simple").unwrap(), "simple");
    assert_eq!(transform_key("list[0]").unwrap(), "list__i_0");
    assert_eq!(transform_key("grid[x,y]").unwrap(), "grid__i_x_y");
    assert_eq!(transform_key("queue[]").unwrap(), "queue__i_APPEND");
}

#[test]
fn test_transform_value() {
    assert_eq!(transform_value("simple").unwrap(), "simple");
    assert_eq!(transform_value("value with spaces").unwrap(), "value with spaces");
}

#[test]
fn test_transform_token() {
    let (key, value) = transform_token("list[0]=item").unwrap();
    assert_eq!(key, "list__i_0");
    assert_eq!(value, "item");
    let (key, value) = transform_token("simple=value").unwrap();
    assert_eq!(key, "simple");
    assert_eq!(value, "value");
}

#[test]
fn test_transform_token_batch() {
    let result = transform_token_batch("key1=value1; list[0]=item; ctx=app; key2=value2").unwrap();
    assert_eq!(result.len(), 3);
    assert_eq!(result[0], ("key1".to_string(), "value1".to_string()));
    assert_eq!(result[1], ("list__i_0".to_string(), "item".to_string()));
    assert_eq!(result[2], ("key2".to_string(), "value2".to_string()));
}

#[test]
fn test_needs_transformation() {
    assert!(!needs_transformation("simple"));
    assert!(needs_transformation("list[0]"));
    assert!(needs_transformation("grid[x,y]"));
}

#[test]
fn transform_test_extract_base_name() {
    assert_eq!(extract_base_name("simple").unwrap(), "simple");
    assert_eq!(extract_base_name("list[0]").unwrap(), "list");
    assert_eq!(extract_base_name("grid[x,y]").unwrap(), "grid");
}

#[test]
fn transform_token_errors() {
    assert_eq!(transform_token("novalue").unwrap_err().to_string(), "Invalid token 'novalue': missing '=' separator");
    assert_eq!(transform_token(" =v").unwrap_err().to_string(), "Invalid token ' =v': empty key");
    assert!(transform_token("list[=v").is_err());
    assert!(transform_token_batch("a=1; broken; b=2").is_err());
}
