use meteor::split::smart_split_semicolons;
use meteor::validators::{
    has_consecutive_semicolons_outside_quotes, is_valid_meteor_format, is_valid_meteor_shower_format,
    is_valid_token_format, is_valid_token_in_meteor_context,
};

#[test]
fn test_valid_token_formats() {
    assert!(is_valid_token_format("button=click"));
    assert!(is_valid_token_format("key="));
    assert!(is_valid_token_format("list[0]=item"));
    assert!(is_valid_token_format("key=value with spaces"));
    assert!(is_valid_token_format("complex_key[x,y]=complex value"));
}

#[test]
fn test_invalid_token_formats() {
    assert!(!is_valid_token_format(""));
    assert!(!is_valid_token_format("just_key"));
    assert!(!is_valid_token_format("=value"));
    assert!(!is_valid_token_format(" =value"));
    assert!(!is_valid_token_format("key=value=extra"));
    assert!(!is_valid_token_format("key"));

    // Spaces in keys should be invalid
    assert!(!is_valid_token_format("spaces in key=value"));
    assert!(!is_valid_token_format("key with spaces=value"));
}

#[test]
fn test_valid_meteor_formats() {
    assert!(is_valid_meteor_format("button=click"));
    assert!(is_valid_meteor_format("app:ui:button=click"));
    assert!(is_valid_meteor_format("ui:button=click"));
    assert!(is_valid_meteor_format("app:ui:button=click; theme=dark"));
    assert!(is_valid_meteor_format(
        "button=click; theme=dark; size=large"
    ));
}

#[test]
fn test_invalid_meteor_formats() {
    assert!(!is_valid_meteor_format(""));
    assert!(!is_valid_meteor_format("app:ui:button"));
    assert!(!is_valid_meteor_format("app:ui:button=click;; theme=dark"));
    assert!(!is_valid_meteor_format("app:ui:button=click;;; theme=dark"));
    assert!(!is_valid_meteor_format("invalid"));

    // Unclosed quotes should be invalid
    assert!(!is_valid_meteor_format("key=\"unclosed quote"));
    assert!(!is_valid_meteor_format("key=value; message=\"unclosed"));

    // Spaces in keys should be invalid
    assert!(!is_valid_meteor_format("spaces in key=value"));
}

#[test]
fn test_valid_meteor_shower_formats() {
    assert!(is_valid_meteor_shower_format("button=click"));
    assert!(is_valid_meteor_shower_format("app:ui:button=click"));
    assert!(is_valid_meteor_shower_format(
        "app:ui:button=click :;: user:settings:theme=dark"
    ));
    assert!(is_valid_meteor_shower_format(
        "button=click; theme=dark :;: user:profile=admin"
    ));
}

#[test]
fn test_invalid_meteor_shower_formats() {
    assert!(!is_valid_meteor_shower_format(""));
    assert!(!is_valid_meteor_shower_format(
        "app:ui:button=click;; theme=dark"
    ));
    assert!(!is_valid_meteor_shower_format("invalid"));
    assert!(!is_valid_meteor_shower_format("app:ui:button"));
}

#[test]
fn test_meteor_context_validation() {
    // Full addressing
    assert!(is_valid_token_in_meteor_context("app:ui:button=click"));
    assert!(is_valid_token_in_meteor_context("user:settings:theme=dark"));

    // Namespace only
    assert!(is_valid_token_in_meteor_context("ui:button=click"));

    // Simple format
    assert!(is_valid_token_in_meteor_context("button=click"));

    // Invalid formats
    assert!(!is_valid_token_in_meteor_context("app:ui:button"));
    assert!(!is_valid_token_in_meteor_context(
        "app:ui:button:extra=value"
    ));
    assert!(!is_valid_token_in_meteor_context(""));
}

#[test]
fn test_consecutive_semicolon_detection() {
    assert!(!is_valid_meteor_format("key=value;; key2=value2"));
    assert!(!is_valid_meteor_format("key=value;;; key2=value2"));
    assert!(!is_valid_meteor_shower_format(
        "app:ui:button=click;; theme=dark"
    ));

    // Single semicolons should be OK
    assert!(is_valid_meteor_format("key=value; key2=value2"));
    assert!(is_valid_meteor_shower_format(
        "app:ui:button=click; theme=dark"
    ));
}

#[test]
fn test_quoted_values() {
    // Quoted values with semicolons should be valid
    assert!(is_valid_token_format("key=\"value; with semicolons\""));
    assert!(is_valid_token_format("message=\"Hello;; World;;;\""));

    // Quoted values in meteor context
    assert!(is_valid_meteor_format("key=\"value;;; with semicolons\""));
    assert!(is_valid_meteor_format(
        "app:ui:message=\"Hello; World\"; theme=dark"
    ));
    assert!(is_valid_meteor_format(
        "key1=\"val;ue\"; key2=\"another;;value\""
    ));

    // Quoted values in meteor shower
    assert!(is_valid_meteor_shower_format(
        "app:ui:message=\"Hello;; World\" :;: user:data=\"test;;; value\""
    ));
}

#[test]
fn test_smart_semicolon_splitting() {
    let result =
        smart_split_semicolons("key=value; message=\"hello; world\"; theme=dark").unwrap();
    assert_eq!(result.len(), 3);
    assert_eq!(result[0], "key=value");
    assert_eq!(result[1], " message=\"hello; world\"");
    assert_eq!(result[2], " theme=dark");

    let result =
        smart_split_semicolons("message=\"value;;; with lots; of semicolons\"").unwrap();
    assert_eq!(result.len(), 1);
    assert_eq!(result[0], "message=\"value;;; with lots; of semicolons\"");

    // Test unclosed quotes
    assert!(smart_split_semicolons("key=\"unclosed quote").is_none());
    assert!(smart_split_semicolons("key=value; message=\"unclosed").is_none());
}

#[test]
fn test_consecutive_semicolons_outside_quotes() {
    // Consecutive semicolons outside quotes should be invalid
    assert!(has_consecutive_semicolons_outside_quotes(
        "key=value;; theme=dark"
    ));
    assert!(has_consecutive_semicolons_outside_quotes(
        "key=value;;; theme=dark"
    ));

    // Consecutive semicolons inside quotes should be OK
    assert!(!has_consecutive_semicolons_outside_quotes(
        "key=\"value;;; inside quotes\""
    ));
    assert!(!has_consecutive_semicolons_outside_quotes(
        "message=\"hello;; world\"; theme=dark"
    ));

    // Mixed case: semicolons inside quotes OK, but consecutive outside should fail
    assert!(has_consecutive_semicolons_outside_quotes(
        "message=\"hello; world\";; theme=dark"
    ));
}

