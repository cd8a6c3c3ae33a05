use am::cli::validate_slug;

#[test]
fn valid_slug_accepted() {
    assert!(validate_slug("feat").is_ok());
    assert!(validate_slug("my-feature").is_ok());
    assert!(validate_slug("feature_123").is_ok());
    assert!(validate_slug("a").is_ok());
    assert!(validate_slug(&"a".repeat(40)).is_ok());
}

#[test]
fn slug_too_long_rejected() {
    assert!(validate_slug(&"a".repeat(41)).is_err());
}

#[test]
fn empty_slug_rejected() {
    assert!(validate_slug("").is_err());
}

#[test]
fn invalid_chars_rejected() {
    assert!(validate_slug("my feature").is_err());
    assert!(validate_slug("MyFeature").is_err());
    assert!(validate_slug("feat!").is_err());
    assert!(validate_slug("feat/sub").is_err());
}

#[test]
fn slug_must_start_with_alphanumeric() {
    assert!(validate_slug("-leading-dash").is_err());
    assert!(validate_slug("_leading_underscore").is_err());
    assert!(validate_slug("a-leading-letter").is_ok());
    assert!(validate_slug("1-leading-digit").is_ok());
}

#[test]
fn each_refusal_says_what_is_wrong() {
    assert_eq!(validate_slug("").unwrap_err(), "slug must be 1–40 characters (got 0)");
    assert_eq!(validate_slug(&"a".repeat(41)).unwrap_err(), "slug must be 1–40 characters (got 41)");
    assert_eq!(validate_slug("-a").unwrap_err(), "slug must start with a lowercase letter or digit");
    assert_eq!(
        validate_slug("aB").unwrap_err(),
        "slug may only contain lowercase letters, digits, underscores, and hyphens"
    );
    assert_eq!(validate_slug("my-feature").unwrap(), "my-feature");
}

#[test]
fn a_slugs_length_is_counted_in_bytes() {
    assert_eq!(validate_slug(&"ä".repeat(21)).unwrap_err(), "slug must be 1–40 characters (got 42)");
    assert_eq!(validate_slug(&"ä".repeat(20)).unwrap_err(), "slug must start with a lowercase letter or digit");
}
