use download_manager::validate;

#[test]
fn test_valid_path() {
    assert!(validate::path("/downloads/file.mp4").is_ok());
    assert!(validate::path("/file.txt").is_ok());
}

#[test]
fn test_empty_path() {
    let result = validate::path("");
    assert!(result.is_err());
    assert!(result.unwrap_err().message().contains("empty"));
}

#[test]
fn test_relative_path() {
    assert!(validate::path("relative/path.txt").is_err());
    assert!(validate::path("file.txt").is_err());
}

#[test]
fn test_path_without_filename() {
    // Root path has no filename component.
    assert!(validate::path("/").is_err());
}

#[test]
fn validate_test_valid_urls() {
    assert!(validate::url("https://example.com/file.mp4").is_ok());
    assert!(validate::url("http://example.com/file.mp4").is_ok());
    assert!(validate::url("https://example.com:8080/file.mp4").is_ok());
    assert!(validate::url("https://example.com/file.mp4?token=abc").is_ok());
    // No path component is valid.
    assert!(validate::url("https://example.com").is_ok());
}

#[test]
fn validate_test_empty_url() {
    let result = validate::url("");
    assert!(result.is_err());
    assert!(result.unwrap_err().message().contains("empty"));
}

#[test]
fn validate_test_invalid_scheme() {
    assert!(validate::url("ftp://example.com/file.mp4").is_err());
    assert!(validate::url("file:///path/to/file.mp4").is_err());
    assert!(validate::url("ws://example.com/socket").is_err());
    assert!(validate::url("data:text/plain,hello").is_err());
}

#[test]
fn validate_test_missing_host() {
    assert!(validate::url("https://:8080/file.mp4").is_err());
}

#[test]
fn validate_test_invalid_url_format() {
    assert!(validate::url("not a valid url").is_err());
    // Protocol-relative URL with no scheme.
    assert!(validate::url("//example.com/file.mp4").is_err());
}

#[test]
fn filename_extracts_last_component() {
    assert_eq!(download_manager::validate::filename("/tmp/file.mp4"), "file.mp4");
    assert_eq!(download_manager::validate::filename("/tmp/dir/"), "dir");
    // A path without a filename component falls back to the whole path.
    assert_eq!(download_manager::validate::filename("/"), "/");
    assert_eq!(download_manager::validate::filename("/a/.."), "/a/..");
}
