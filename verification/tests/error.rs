use download_manager::Error;

#[test]
fn test_error_display() {
    assert_eq!(Error::InvalidState.message(), "Invalid State");
    assert_eq!(
        Error::NotFound("test.mp4".to_string()).message(),
        "Not Found: test.mp4"
    );
    assert_eq!(
        Error::Store("failed".to_string()).message(),
        "Store Error: failed"
    );
    assert_eq!(
        Error::File("denied".to_string()).message(),
        "File Error: denied"
    );
    assert_eq!(
        Error::Http("timeout".to_string()).message(),
        "HTTP Error: timeout"
    );
}

#[test]
fn url_and_path_errors_carry_their_messages() {
    assert_eq!(
        Error::Url("URL cannot be empty".to_string()).message(),
        "URL Error: URL cannot be empty"
    );
    assert_eq!(
        Error::Path("path must be absolute".to_string()).message(),
        "Path Error: path must be absolute"
    );
}
