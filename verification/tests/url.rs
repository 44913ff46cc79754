use download_manager::url::validate;

#[test]
fn url_test_valid_urls() {
    assert!(validate("https://example.com/file.mp4").is_ok());
    assert!(validate("http://example.com/file.mp4").is_ok());
    assert!(validate("https://example.com:8080/file.mp4").is_ok());
    assert!(validate("https://example.com/file.mp4?token=abc").is_ok());
}

#[test]
fn url_test_empty_url() {
    let result = validate("");
    assert!(result.is_err());
    assert!(result.unwrap_err().message().contains("empty"));
}

#[test]
fn url_test_invalid_scheme() {
    assert!(validate("ftp://example.com/file.mp4").is_err());
    assert!(validate("file:///path/to/file.mp4").is_err());
}

#[test]
fn url_test_missing_host() {
    assert!(validate("https://:8080/file.mp4").is_err());
}

#[test]
fn url_test_invalid_url_format() {
    assert!(validate("not a valid url").is_err());
}
