use udown::domain::validation::{check_url_parts, validate_youtube_url, UrlParts};
use udown::error::AppError;

#[test]
fn accepts_valid_youtube_urls() {
    for url in [
        "https://www.youtube.com/watch?v=dQw4w9WgXcQ",
        "https://youtu.be/dQw4w9WgXcQ",
        "http://m.youtube.com/watch?v=abc",
        "https://YouTube.com/watch?v=abc", // case-insensitive host
    ] {
        assert!(validate_youtube_url(url).is_ok(), "should accept {url}");
    }
}

#[test]
fn rejects_non_youtube_host() {
    assert!(validate_youtube_url("https://vimeo.com/12345").is_err());
    assert!(validate_youtube_url("https://evil.com/youtube.com").is_err());
}

#[test]
fn rejects_bad_scheme() {
    assert!(validate_youtube_url("ftp://youtube.com/x").is_err());
    assert!(validate_youtube_url("file:///etc/passwd").is_err());
}

#[test]
fn rejects_malformed_url() {
    assert!(validate_youtube_url("not a url").is_err());
    assert!(validate_youtube_url("").is_err());
}

fn reason(url: &str) -> String {
    match validate_youtube_url(url) {
        Err(AppError::InvalidRequest(message)) => message,
        other => panic!("expected an invalid request, got {other:?}"),
    }
}

#[test]
fn each_rejection_says_why() {
    assert_eq!(reason("not a url"), "Invalid URL format");
    assert_eq!(reason("ftp://youtube.com/x"), "URL must use http or https");
    assert_eq!(reason("https://vimeo.com/12345"), "Only YouTube URLs are supported");
    assert_eq!(reason("mailto:someone@youtube.com"), "URL must use http or https");
}

#[test]
fn every_allowed_host_is_accepted() {
    for host in ["youtube.com", "www.youtube.com", "m.youtube.com", "youtu.be", "www.youtu.be"] {
        assert!(validate_youtube_url(&format!("https://{host}/x")).is_ok(), "{host}");
    }
    assert!(validate_youtube_url("https://WWW.YOUTU.BE/x").is_ok());
    assert!(validate_youtube_url("https://music.youtube.com/x").is_err());
}

#[test]
fn a_url_without_a_host_is_rejected() {
    let parts = UrlParts { scheme: "https".to_string(), host: None };
    match check_url_parts(Some(parts)) {
        Err(AppError::InvalidRequest(message)) => assert_eq!(message, "Missing host"),
        other => panic!("expected an invalid request, got {other:?}"),
    }
    let parts = UrlParts { scheme: "http".to_string(), host: Some("YOUTUBE.com".to_string()) };
    assert!(check_url_parts(Some(parts)).is_ok());
}
