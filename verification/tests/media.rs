use udown::domain::media::{content_type_for, Quality};

#[test]
fn parse_defaults_to_best() {
    assert_eq!(Quality::parse(None), Quality::Best);
    assert_eq!(Quality::parse(Some("best")), Quality::Best);
}

#[test]
fn parse_known_qualities() {
    assert_eq!(Quality::parse(Some("1080")), Quality::P1080);
    assert_eq!(Quality::parse(Some("720")), Quality::P720);
    assert_eq!(Quality::parse(Some("audio")), Quality::AudioM4a);
    assert_eq!(Quality::parse(Some("mp3")), Quality::Mp3);
}

#[test]
fn parse_unknown_is_custom_passthrough() {
    assert_eq!(
        Quality::parse(Some("worstaudio")),
        Quality::Custom("worstaudio".to_string())
    );
}

#[test]
fn mp3_args_request_mp3_extraction() {
    let args = Quality::Mp3.ytdlp_args();
    assert!(args.contains(&"--extract-audio".to_string()));
    assert!(args.windows(2).any(|w| w == ["--audio-format", "mp3"]));
    // mp3 must not try to merge into an mp4 container
    assert!(!args.contains(&"--merge-output-format".to_string()));
}

#[test]
fn video_qualities_merge_to_mp4() {
    for q in [Quality::Best, Quality::P1080, Quality::P720] {
        let args = q.ytdlp_args();
        assert!(args
            .windows(2)
            .any(|w| w == ["--merge-output-format", "mp4"]));
    }
}

#[test]
fn content_type_mapping() {
    assert_eq!(content_type_for(Some("mp3")), "audio/mpeg");
    assert_eq!(content_type_for(Some("m4a")), "audio/mp4");
    assert_eq!(content_type_for(Some("webm")), "audio/webm");
    assert_eq!(content_type_for(Some("mp4")), "video/mp4");
    assert_eq!(content_type_for(None), "video/mp4");
}

#[test]
fn preset_arguments_are_exact() {
    assert_eq!(
        Quality::Mp3.ytdlp_args(),
        vec![
            "-f",
            "bestaudio/best",
            "--extract-audio",
            "--audio-format",
            "mp3",
            "--audio-quality",
            "0"
        ]
    );
    assert_eq!(
        Quality::P720.ytdlp_args(),
        vec![
            "-f",
            "bestvideo[height<=720]+bestaudio/best[height<=720]/best",
            "--merge-output-format",
            "mp4"
        ]
    );
    assert_eq!(
        Quality::AudioM4a.ytdlp_args(),
        vec!["-f", "bestaudio[ext=m4a]/bestaudio", "--merge-output-format", "mp4"]
    );
    assert_eq!(
        Quality::Custom("worst".to_string()).ytdlp_args(),
        vec!["-f", "worst", "--merge-output-format", "mp4"]
    );
}

#[test]
fn only_mp3_has_a_known_extension() {
    assert_eq!(Quality::Mp3.output_extension(), Some("mp3"));
    for q in [Quality::Best, Quality::P1080, Quality::P720, Quality::AudioM4a] {
        assert_eq!(q.output_extension(), None);
    }
    assert_eq!(Quality::Custom("mp3".to_string()).output_extension(), None);
}

#[test]
fn ffmpeg_is_needed_to_merge_or_re_encode() {
    for q in [Quality::Best, Quality::P1080, Quality::P720, Quality::Mp3] {
        assert!(q.needs_ffmpeg());
    }
    assert!(!Quality::AudioM4a.needs_ffmpeg());
    assert!(Quality::Custom("bestvideo+bestaudio".to_string()).needs_ffmpeg());
    assert!(!Quality::Custom("worstaudio".to_string()).needs_ffmpeg());
}

#[test]
fn content_type_is_case_sensitive() {
    assert_eq!(content_type_for(Some("MP3")), "video/mp4");
    assert_eq!(content_type_for(Some("")), "video/mp4");
}
