use udown::cli::{parse, Command, USAGE};

fn parse_str(args: &[&str]) -> Result<Command, String> {
    parse(&args.iter().map(|s| s.to_string()).collect::<Vec<_>>())
}

const URL: &str = "https://youtu.be/dQw4w9WgXcQ";

#[test]
fn no_arguments_starts_the_server() {
    assert_eq!(parse_str(&[]), Ok(Command::Serve));
    assert_eq!(parse_str(&["serve"]), Ok(Command::Serve));
}

#[test]
fn help_flags_request_usage() {
    for flag in ["help", "-h", "--help"] {
        assert_eq!(parse_str(&[flag]), Ok(Command::Help));
    }
}

#[test]
fn mp3_subcommand_defaults_to_mp3_quality_and_current_dir() {
    assert_eq!(
        parse_str(&["mp3", URL]),
        Ok(Command::Download {
            url: URL.to_string(),
            quality: "mp3".to_string(),
            out_dir: None,
        })
    );
}

#[test]
fn get_subcommand_defaults_to_best() {
    let Ok(Command::Download { quality, .. }) = parse_str(&["get", URL]) else {
        panic!("expected a download");
    };
    assert_eq!(quality, "best");
}

#[test]
fn quality_and_out_dir_can_be_overridden() {
    assert_eq!(
        parse_str(&["get", URL, "-q", "720", "-o", "/tmp/media"]),
        Ok(Command::Download {
            url: URL.to_string(),
            quality: "720".to_string(),
            out_dir: Some("/tmp/media".to_string()),
        })
    );
}

#[test]
fn flags_may_precede_the_url() {
    let Ok(Command::Download { url, quality, .. }) =
        parse_str(&["mp3", "-o", "/tmp", URL, "-q", "audio"])
    else {
        panic!("expected a download");
    };
    assert_eq!(url, URL);
    assert_eq!(quality, "audio");
}

#[test]
fn long_option_names_are_accepted() {
    assert_eq!(
        parse_str(&["get", URL, "--quality", "1080", "--out-dir", "."]),
        Ok(Command::Download {
            url: URL.to_string(),
            quality: "1080".to_string(),
            out_dir: Some(".".to_string()),
        })
    );
}

#[test]
fn a_missing_url_is_rejected() {
    assert!(parse_str(&["mp3"]).is_err());
    assert!(parse_str(&["get", "-q", "720"]).is_err());
}

#[test]
fn a_flag_without_its_value_is_rejected() {
    assert!(parse_str(&["mp3", URL, "-o"]).is_err());
    assert!(parse_str(&["mp3", URL, "-q"]).is_err());
}

#[test]
fn unknown_options_and_extra_positionals_are_rejected() {
    assert!(parse_str(&["mp3", URL, "--verbose"]).is_err());
    assert!(parse_str(&["mp3", URL, URL]).is_err());
}

#[test]
fn a_bare_url_suggests_a_subcommand() {
    let error = parse_str(&[URL]).unwrap_err();
    assert!(error.contains("udown mp3"), "unhelpful message: {error}");
}

#[test]
fn an_unknown_command_is_rejected() {
    assert!(parse_str(&["download"]).is_err());
}

#[test]
fn error_messages_name_the_offending_argument() {
    assert_eq!(parse_str(&["download"]), Err("Unknown command: download".to_string()));
    assert_eq!(parse_str(&["mp3"]), Err("Missing URL.".to_string()));
    assert_eq!(parse_str(&["mp3", URL, "-o"]), Err("-o needs a value.".to_string()));
    assert_eq!(
        parse_str(&["mp3", URL, "--quality", ""]),
        Err("--quality needs a value.".to_string())
    );
    assert_eq!(
        parse_str(&["mp3", URL, "--verbose"]),
        Err("Unknown option: --verbose".to_string())
    );
    assert_eq!(
        parse_str(&["mp3", URL, "extra"]),
        Err("Unexpected argument: extra".to_string())
    );
    assert_eq!(
        parse_str(&[URL]),
        Err(format!(
            "Missing command. Did you mean `udown mp3 {URL}` or `udown get {URL}`?"
        ))
    );
}

#[test]
fn the_last_value_of_a_repeated_option_wins() {
    assert_eq!(
        parse_str(&["get", URL, "-q", "720", "--quality", "1080", "-o", "a", "--out", "b"]),
        Ok(Command::Download {
            url: URL.to_string(),
            quality: "1080".to_string(),
            out_dir: Some("b".to_string()),
        })
    );
}

#[test]
fn options_before_and_after_the_url_agree() {
    let after = parse_str(&["get", URL, "-q", "720", "-o", "/tmp"]);
    let before = parse_str(&["get", "-o", "/tmp", URL, "-q", "720"]);
    assert_eq!(after, before);
}

#[test]
fn usage_lists_every_subcommand() {
    for word in ["udown serve", "udown mp3 <URL>", "udown get <URL>", "udown --help"] {
        assert!(USAGE.contains(word), "missing {word}");
    }
}
