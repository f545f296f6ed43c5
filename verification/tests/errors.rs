use udown::config::AppConfig;
use udown::domain::media::Quality;
use udown::error::AppError;
use udown::web::dto::{content_disposition, DownloadRequest, HealthStatus};

#[test]
fn client_errors_are_bad_requests_and_the_rest_are_server_errors() {
    assert_eq!(AppError::InvalidRequest("x".to_string()).status_code(), 400);
    assert_eq!(AppError::YtDlp("x".to_string()).status_code(), 400);
    assert_eq!(AppError::ToolUnavailable("x".to_string()).status_code(), 500);
    assert_eq!(AppError::FileNotFound.status_code(), 500);
    assert_eq!(AppError::Internal("x".to_string()).status_code(), 500);
}

#[test]
fn error_messages_match_their_variants() {
    assert_eq!(AppError::InvalidRequest("bad".to_string()).message(), "bad");
    assert_eq!(AppError::YtDlp("gone".to_string()).message(), "yt-dlp error: gone");
    assert_eq!(AppError::ToolUnavailable("none".to_string()).message(), "none");
    assert_eq!(AppError::FileNotFound.message(), "download completed but file not found");
    assert_eq!(AppError::Internal("oops".to_string()).message(), "oops");
}

#[test]
fn configuration_falls_back_to_defaults() {
    let config = AppConfig::from_settings(None, None, None);
    let default = AppConfig::default();
    assert_eq!(config.bind_address, "127.0.0.1:8080");
    assert_eq!(config.bind_address, default.bind_address);
    assert_eq!(config.download_dir, "./downloads");
    assert_eq!(config.download_dir, default.download_dir);
}

#[test]
fn configuration_takes_the_given_settings() {
    let config = AppConfig::from_settings(
        Some("0.0.0.0".to_string()),
        Some("9000".to_string()),
        Some("/srv/media".to_string()),
    );
    assert_eq!(config.bind_address, "0.0.0.0:9000");
    assert_eq!(config.download_dir, "/srv/media");
    let config = AppConfig::from_settings(None, Some("1".to_string()), None);
    assert_eq!(config.bind_address, "127.0.0.1:1");
}

#[test]
fn a_download_is_offered_as_an_attachment() {
    assert_eq!(content_disposition("Song.mp3"), "attachment; filename=\"Song.mp3\"");
}

#[test]
fn a_request_without_quality_asks_for_the_best() {
    let request = DownloadRequest { url: "u".to_string(), quality: None };
    assert_eq!(request.requested_quality(), Quality::Best);
    let request = DownloadRequest { url: "u".to_string(), quality: Some("mp3".to_string()) };
    assert_eq!(request.requested_quality(), Quality::Mp3);
}

#[test]
fn the_health_report_is_ok_with_the_tool_status() {
    let report = HealthStatus::report(true, false);
    assert_eq!(report.status, "ok");
    assert!(report.yt_dlp_available);
    assert!(!report.ffmpeg_available);
}
