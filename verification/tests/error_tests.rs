use yaml_config::ParseError;

#[test]
fn test_display_trait() {
    let error = ParseError {
        module: "test::test".to_string(),
        message: "test error".to_string(),
    };
    assert_eq!(error.to_string(), "test::test: test error")
}

// ScanError cant be tested due to private fields.

#[test]
fn test_error() {
    let error = ParseError::from(std::io::Error::new(std::io::ErrorKind::Unsupported, "bad news"));
    assert_eq!(error.to_string(), "std::io: bad news");
}
