use udown::domain::naming::{display_filename, numbered_name, output_template, pick_output};

const ID: &str = "0c4f1b8e-1111-2222-3333-444455556666";

#[test]
fn template_keeps_the_id_as_a_locatable_prefix() {
    let template = output_template(ID);
    assert!(template.starts_with(ID));
    assert!(template.ends_with(".%(ext)s"));
}

#[test]
fn template_bounds_the_title_field_itself() {
    // A yt-dlp format precision, so only the title is truncated, never the
    // directory part of an absolute output path.
    assert!(
        output_template(ID).contains("%(title).100s"),
        "the title field must carry its own length limit"
    );
}

#[test]
fn display_name_drops_the_id_prefix() {
    assert_eq!(
        display_filename(&format!("{ID}-Never_Gonna_Give_You_Up.mp3"), ID),
        "Never_Gonna_Give_You_Up.mp3"
    );
}

#[test]
fn display_name_falls_back_when_the_title_was_empty() {
    // yt-dlp produced "<uuid>-.mp3": stripping leaves only an extension.
    let stored = format!("{ID}-.mp3");
    assert_eq!(display_filename(&stored, ID), stored);
}

#[test]
fn display_name_passes_through_a_name_without_the_prefix() {
    assert_eq!(display_filename("song.mp3", ID), "song.mp3");
}

#[test]
fn display_name_strips_header_breaking_characters() {
    let stored = format!("{ID}-a\"b/c.mp3");
    assert_eq!(display_filename(&stored, ID), "abc.mp3");
}

#[test]
fn display_name_never_returns_empty() {
    assert_eq!(display_filename("///", ID), "download");
}

#[test]
fn pick_output_returns_the_only_candidate() {
    assert_eq!(
        pick_output(&["a-Song.mp3"], Some("mp3")),
        Some("a-Song.mp3")
    );
    assert_eq!(pick_output(&["a-Clip.mp4"], None), Some("a-Clip.mp4"));
}

#[test]
fn pick_output_prefers_the_expected_extension() {
    // yt-dlp kept the .webm it re-encoded from, and directory order could hand
    // back the intermediate instead.
    let candidates = ["a-Song.webm", "a-Song.mp3"];
    assert_eq!(pick_output(&candidates, Some("mp3")), Some("a-Song.mp3"));

    let reversed = ["a-Song.mp3", "a-Song.webm"];
    assert_eq!(pick_output(&reversed, Some("mp3")), Some("a-Song.mp3"));
}

#[test]
fn pick_output_is_deterministic_without_an_expected_extension() {
    let candidates = ["a-Song.webm", "a-Song.mkv"];
    assert_eq!(pick_output(&candidates, None), Some("a-Song.mkv"));
    assert_eq!(
        pick_output(&["a-Song.mkv", "a-Song.webm"], None),
        Some("a-Song.mkv")
    );
}

#[test]
fn pick_output_falls_back_when_the_expected_extension_is_absent() {
    // Better to hand back the file that exists than to report nothing found.
    assert_eq!(
        pick_output(&["a-Song.webm"], Some("mp3")),
        Some("a-Song.webm")
    );
}

#[test]
fn pick_output_of_nothing_is_none() {
    assert_eq!(pick_output(&[], Some("mp3")), None);
    assert_eq!(pick_output(&[], None), None);
}

#[test]
fn pick_output_does_not_match_an_extension_mid_name() {
    // ".mp3" must be a suffix, not a substring.
    assert_eq!(
        pick_output(&["a-Song.mp3.part"], Some("mp3")),
        Some("a-Song.mp3.part")
    );
}

#[test]
fn numbered_name_inserts_before_the_extension() {
    assert_eq!(numbered_name("Song.mp3", 2), "Song (2).mp3");
    assert_eq!(numbered_name("archive.tar.gz", 3), "archive.tar (3).gz");
}

#[test]
fn numbered_name_handles_names_without_an_extension() {
    assert_eq!(numbered_name("Song", 2), "Song (2)");
    assert_eq!(numbered_name(".hidden", 2), ".hidden (2)");
}

#[test]
fn template_is_exact() {
    assert_eq!(output_template(ID), format!("{ID}-%(title).100s.%(ext)s"));
    assert_eq!(output_template(""), "-%(title).100s.%(ext)s");
}

#[test]
fn display_name_undoes_the_stored_prefix() {
    for title in ["Me_at_the_zoo.mp3", "x", "Song (2).webm", "no_extension"] {
        assert_eq!(display_filename(&format!("{ID}-{title}"), ID), title);
    }
}

#[test]
fn display_name_drops_every_dash_after_the_id() {
    assert_eq!(display_filename(&format!("{ID}---Song.mp3"), ID), "Song.mp3");
}

#[test]
fn display_name_falls_back_for_a_bare_id() {
    assert_eq!(display_filename(ID, ID), ID);
    assert_eq!(display_filename(&format!("{ID}-"), ID), format!("{ID}-"));
}

#[test]
fn display_name_removes_control_characters_and_backslashes() {
    assert_eq!(display_filename("a\tb\\c\u{7f}d\u{85}e.mp3", ID), "abcde.mp3");
    assert_eq!(display_filename("\" \"", ID), "download");
    assert_eq!(display_filename("\u{3000}/", ID), "download");
}

#[test]
fn pick_output_does_not_depend_on_the_order_of_candidates() {
    let names = ["b.webm", "a.mkv", "c.mp3", "a.mp3"];
    let mut reversed = names;
    reversed.reverse();
    for ext in [None, Some("mp3"), Some("mkv"), Some("ogg")] {
        assert_eq!(pick_output(&names, ext), pick_output(&reversed, ext));
    }
    assert_eq!(pick_output(&names, Some("mp3")), Some("a.mp3"));
    assert_eq!(pick_output(&names, None), Some("a.mkv"));
}

#[test]
fn pick_output_orders_a_prefix_first() {
    assert_eq!(pick_output(&["ab", "a"], None), Some("a"));
    assert_eq!(pick_output(&["a\u{e9}", "az"], None), Some("az"));
}

#[test]
fn numbered_name_keeps_the_extension() {
    assert_eq!(numbered_name("Song.mp3", 10), "Song (10).mp3");
    assert_eq!(numbered_name("a.", 999), "a (999).");
    assert_eq!(numbered_name("", 4), " (4)");
    assert_eq!(numbered_name("x", 4294967295), "x (4294967295)");
}
