use std::path::PathBuf;

use udown::domain::media::Quality;
use udown::error::AppError;
use udown::services::ytdlp::{
    build_download_args, candidate_name, check_tools, free_name, last_error_line, last_line,
    locate_output,
    plan_download, spawn_error, video_info_from_json, ytdlp_failure, DownloadedFile, Progress,
};

fn args_for(quality: Quality) -> Vec<String> {
    build_download_args(
        "https://youtu.be/abc",
        &quality,
        "/tmp/id-%(title)s.%(ext)s",
    )
}

#[test]
fn download_args_restrict_the_filename_character_set() {
    let args = args_for(Quality::Mp3);
    assert!(args.contains(&"--restrict-filenames".to_string()));
}

#[test]
fn download_args_never_use_trim_filenames() {
    // --trim-filenames caps the whole rendered output path, directories
    // included, so with an absolute -o it writes the file outside the
    // requested directory. Title length is bounded by the %(title).100s
    // precision in the output template instead.
    for quality in [Quality::Mp3, Quality::Best, Quality::AudioM4a] {
        assert!(
            !args_for(quality).contains(&"--trim-filenames".to_string()),
            "--trim-filenames truncates the directory part of the path"
        );
    }
}

#[test]
fn download_args_end_with_the_url() {
    let args = args_for(Quality::Best);
    assert_eq!(args.last().unwrap(), "https://youtu.be/abc");
}

#[test]
fn download_args_pass_the_output_template_through() {
    let args = args_for(Quality::Mp3);
    assert!(args
        .windows(2)
        .any(|w| w == ["-o", "/tmp/id-%(title)s.%(ext)s"]));
}

#[test]
fn download_args_are_exact() {
    assert_eq!(
        args_for(Quality::Best),
        vec![
            "-f",
            "bestvideo+bestaudio/best",
            "--merge-output-format",
            "mp4",
            "-o",
            "/tmp/id-%(title)s.%(ext)s",
            "--no-playlist",
            "--restrict-filenames",
            "https://youtu.be/abc"
        ]
    );
}

#[test]
fn the_error_line_is_the_last_line_of_stderr() {
    assert_eq!(
        last_error_line(b"WARNING: slow\nERROR: Video unavailable\n"),
        "ERROR: Video unavailable"
    );
    assert_eq!(last_error_line(b"one\r\ntwo\r\n"), "two");
    assert_eq!(last_error_line(b"one\ntwo"), "two");
    assert_eq!(last_error_line(b"a\n\n"), "");
    assert_eq!(last_error_line(b"tail\r"), "tail\r");
    assert_eq!(last_error_line(b""), "Unknown error");
}

#[test]
fn the_error_line_replaces_invalid_utf8() {
    assert_eq!(last_error_line(b"bad \xff byte\n"), "bad \u{fffd} byte");
}

#[test]
fn a_failed_run_is_a_ytdlp_error() {
    match ytdlp_failure(Progress::Quiet, b"x\nERROR: gone\n") {
        AppError::YtDlp(message) => assert_eq!(message, "ERROR: gone"),
        other => panic!("unexpected {other:?}"),
    }
    match ytdlp_failure(Progress::Inherit, b"ignored") {
        AppError::YtDlp(message) => {
            assert_eq!(message, "yt-dlp exited with an error (see its output above)")
        }
        other => panic!("unexpected {other:?}"),
    }
}

#[test]
fn a_spawn_failure_says_the_tool_is_missing() {
    match spawn_error("No such file or directory (os error 2)") {
        AppError::ToolUnavailable(message) => assert_eq!(
            message,
            "Failed to run yt-dlp: No such file or directory (os error 2). Is it installed?"
        ),
        other => panic!("unexpected {other:?}"),
    }
}

#[test]
fn video_info_is_read_from_dump_json() {
    let json = br#"{
        "title": "Me at the zoo",
        "duration_string": "0:19",
        "formats": [
            {"format_id": "18", "ext": "mp4", "resolution": "640x360", "filesize": 791},
            {"ext": "webm"},
            {"format_id": "251", "filesize": -3},
            "not an object"
        ]
    }"#;
    let info = video_info_from_json(json).unwrap();
    assert_eq!(info.title, "Me at the zoo");
    assert_eq!(info.duration.as_deref(), Some("0:19"));
    assert_eq!(info.formats.len(), 2);
    assert_eq!(info.formats[0].format_id, "18");
    assert_eq!(info.formats[0].ext, "mp4");
    assert_eq!(info.formats[0].resolution.as_deref(), Some("640x360"));
    assert_eq!(info.formats[0].filesize, Some(791));
    assert_eq!(info.formats[1].format_id, "251");
    assert_eq!(info.formats[1].ext, "mp4");
    assert_eq!(info.formats[1].resolution, None);
    assert_eq!(info.formats[1].filesize, None);
}

#[test]
fn missing_fields_take_their_defaults() {
    let info = video_info_from_json(br#"{"title": 5, "formats": "none"}"#).unwrap();
    assert_eq!(info.title, "Unknown");
    assert_eq!(info.duration, None);
    assert!(info.formats.is_empty());
    let info = video_info_from_json(b"[1, 2]").unwrap();
    assert_eq!(info.title, "Unknown");
}

#[test]
fn invalid_json_is_an_internal_error() {
    match video_info_from_json(b"{not json") {
        Err(AppError::Internal(message)) => assert_eq!(message, "Failed to parse video info"),
        other => panic!("unexpected {other:?}"),
    }
}

#[test]
fn a_plan_carries_its_id_as_the_template_prefix() {
    let plan = plan_download(0x0c4f1b8e_1111_2222_3333_444455556666);
    assert_eq!(plan.file_id, "0c4f1b8e-1111-4222-b333-444455556666");
    assert_eq!(plan.template, format!("{}-%(title).100s.%(ext)s", plan.file_id));
    assert_eq!(plan_download(0).file_id, "00000000-0000-4000-8000-000000000000");
    assert_eq!(plan_download(u128::MAX).file_id, "ffffffff-ffff-4fff-bfff-ffffffffffff");
    assert_ne!(plan_download(1).file_id, plan_download(2).file_id);
}

#[test]
fn the_output_is_located_by_its_id_prefix() {
    let names: Vec<String> = ["id2-Song.mp3", "id-Song.webm", "other.mp3", "id-Song.mp3"]
        .iter()
        .map(|s| s.to_string())
        .collect();
    assert_eq!(locate_output(&names, "id-", Some("mp3")), Some("id-Song.mp3".to_string()));
    assert_eq!(locate_output(&names, "id-", None), Some("id-Song.mp3".to_string()));
    assert_eq!(locate_output(&names, "id-", Some("webm")), Some("id-Song.webm".to_string()));
    assert_eq!(locate_output(&names, "missing", Some("mp3")), None);
}

#[test]
fn a_stored_file_is_described_for_the_user() {
    let path = PathBuf::from("/tmp/id-Song.mp3");
    let file = DownloadedFile::from_stored(path.clone(), Some("id-Song.mp3"), "id");
    assert_eq!(file.path, path);
    assert_eq!(file.filename, "Song.mp3");
    assert_eq!(file.content_type, "audio/mpeg");

    let file = DownloadedFile::from_stored(PathBuf::from("/tmp/.."), None, "id");
    assert_eq!(file.filename, "id.mp4");
    assert_eq!(file.content_type, "video/mp4");

    let file = DownloadedFile::from_stored(PathBuf::from("/tmp/.webm"), Some(".webm"), "id");
    assert_eq!(file.content_type, "video/mp4");
}

#[test]
fn colliding_names_are_numbered() {
    assert_eq!(candidate_name("Song.mp3", 1), "Song.mp3");
    assert_eq!(candidate_name("Song.mp3", 2), "Song (2).mp3");
    assert_eq!(candidate_name("Song.mp3", 999), "Song (999).mp3");
    assert_eq!(candidate_name("Song.mp3", 1000), "Song (1000).mp3");
    assert_eq!(candidate_name("Song.mp3", u32::MAX), "Song (4294967295).mp3");
    assert_eq!(candidate_name("Song.mp3", 0), "Song.mp3");
}

#[test]
fn candidate_names_never_repeat() {
    let names: Vec<String> = (1..=2000).map(|n| candidate_name("a.b", n)).collect();
    let mut sorted = names.clone();
    sorted.sort();
    sorted.dedup();
    assert_eq!(sorted.len(), names.len());
}

#[test]
fn missing_tools_are_reported_before_downloading() {
    assert!(check_tools(&Quality::Mp3, true, true).is_ok());
    assert!(check_tools(&Quality::AudioM4a, true, false).is_ok());
    match check_tools(&Quality::Mp3, false, true) {
        Err(AppError::ToolUnavailable(message)) => assert!(message.starts_with("yt-dlp is not on your PATH")),
        other => panic!("unexpected {other:?}"),
    }
    match check_tools(&Quality::Best, true, false) {
        Err(AppError::ToolUnavailable(message)) => assert!(message.starts_with("This format needs ffmpeg")),
        other => panic!("unexpected {other:?}"),
    }
}

#[test]
fn a_free_name_never_overwrites_an_entry() {
    let taken: Vec<String> = ["Song.mp3", "Song (2).mp3", "Song (4).mp3", "id-Song.mp3"]
        .iter()
        .map(|s| s.to_string())
        .collect();
    assert_eq!(free_name("Song.mp3", &taken), Some("Song (3).mp3".to_string()));
    assert_eq!(free_name("Other.mp3", &taken), Some("Other.mp3".to_string()));
    assert_eq!(free_name("Song.mp3", &Vec::new()), Some("Song.mp3".to_string()));
    let many: Vec<String> = (1..=1200).map(|n| candidate_name("a.b", n)).collect();
    assert_eq!(free_name("a.b", &many), Some("a (1201).b".to_string()));
}

#[test]
fn the_last_line_follows_str_lines() {
    for text in ["", "a", "a\n", "a\nb", "a\r\n", "a\r", "a\n\n", "\n", "x\r\ny\r\n"] {
        assert_eq!(last_line(text), text.lines().last(), "{text:?}");
    }
}
