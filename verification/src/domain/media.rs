//! Media-format logic: requested quality to yt-dlp arguments, and file
//! extension to HTTP content type.

use vstd::prelude::*;

use crate::text::{last_index_of, lemma_last_index_of, rfind_char, str_eq};

verus! {

/// A requested output quality, parsed from the API's `quality` field.
#[derive(Debug, Clone, PartialEq, Eq)]
pub enum Quality {
    /// Best available video + audio, merged to MP4.
    Best,
    /// Up to 1080p, merged to MP4.
    P1080,
    /// Up to 720p, merged to MP4.
    P720,
    /// Audio only, kept as m4a.
    AudioM4a,
    /// Audio extracted and re-encoded to MP3 (requires ffmpeg).
    Mp3,
    /// A raw yt-dlp format selector passed through verbatim.
    Custom(String),
}

/// The mathematical value of a [`Quality`]: the selector text of a custom one
/// as a character sequence.
pub enum QualityView {
    Best,
    P1080,
    P720,
    AudioM4a,
    Mp3,
    Custom(Seq<char>),
}

impl View for Quality {
    type V = QualityView;

    open spec fn view(&self) -> QualityView {
        match self {
            Quality::Best => QualityView::Best,
            Quality::P1080 => QualityView::P1080,
            Quality::P720 => QualityView::P720,
            Quality::AudioM4a => QualityView::AudioM4a,
            Quality::Mp3 => QualityView::Mp3,
            Quality::Custom(f) => QualityView::Custom(f@),
        }
    }
}

/// The views of a sequence of strings.
pub open spec fn strings_view(v: Seq<String>) -> Seq<Seq<char>> {
    v.map_values(|s: String| s@)
}

/// The quality that a `quality` field names; an absent field means `best`.
pub open spec fn spec_parse_quality(raw: Option<Seq<char>>) -> QualityView {
    let name = match raw {
        Some(s) => s,
        None => "best"@,
    };
    if name == "best"@ {
        QualityView::Best
    } else if name == "1080"@ {
        QualityView::P1080
    } else if name == "720"@ {
        QualityView::P720
    } else if name == "audio"@ {
        QualityView::AudioM4a
    } else if name == "mp3"@ {
        QualityView::Mp3
    } else {
        QualityView::Custom(name)
    }
}

/// The standard download arguments for a video-style format selector.
pub open spec fn spec_video_args(format: Seq<char>) -> Seq<Seq<char>> {
    seq!["-f"@, format, "--merge-output-format"@, "mp4"@]
}

/// The yt-dlp arguments that realise quality `q`.
pub open spec fn spec_ytdlp_args(q: QualityView) -> Seq<Seq<char>> {
    match q {
        QualityView::Mp3 => seq![
            "-f"@,
            "bestaudio/best"@,
            "--extract-audio"@,
            "--audio-format"@,
            "mp3"@,
            "--audio-quality"@,
            "0"@,
        ],
        QualityView::Best => spec_video_args("bestvideo+bestaudio/best"@),
        QualityView::P1080 => spec_video_args(
            "bestvideo[height<=1080]+bestaudio/best[height<=1080]/best"@,
        ),
        QualityView::P720 => spec_video_args(
            "bestvideo[height<=720]+bestaudio/best[height<=720]/best"@,
        ),
        QualityView::AudioM4a => spec_video_args("bestaudio[ext=m4a]/bestaudio"@),
        QualityView::Custom(f) => spec_video_args(f),
    }
}

/// The extension that quality `q` guarantees for the finished file: only MP3's
/// is known before yt-dlp has picked a format.
pub open spec fn spec_output_extension(q: QualityView) -> Option<Seq<char>> {
    match q {
        QualityView::Mp3 => Some("mp3"@),
        _ => None,
    }
}

/// Whether quality `q` needs ffmpeg: to re-encode audio to MP3, or to merge
/// separate video and audio streams (a `+` in the format selector).
pub open spec fn spec_needs_ffmpeg(q: QualityView) -> bool {
    match q {
        QualityView::AudioM4a => false,
        QualityView::Custom(f) => last_index_of(f, '+') is Some,
        _ => true,
    }
}

/// The HTTP `Content-Type` for a file extension.
pub open spec fn spec_content_type(extension: Option<Seq<char>>) -> Seq<char> {
    match extension {
        Some(e) => if e == "mp3"@ {
            "audio/mpeg"@
        } else if e == "m4a"@ {
            "audio/mp4"@
        } else if e == "webm"@ {
            "audio/webm"@
        } else {
            "video/mp4"@
        },
        None => "video/mp4"@,
    }
}

impl Quality {
    /// Parse the optional `quality` field, defaulting to [`Quality::Best`].
    pub fn parse(raw: Option<&str>) -> (res: Self)
        ensures
            res@ == spec_parse_quality(match raw {
                Some(s) => Some(s@),
                None => None,
            }),
    {
        let name: &str = match raw {
            Some(s) => s,
            None => "best",
        };
        if str_eq(name, "best") {
            Quality::Best
        } else if str_eq(name, "1080") {
            Quality::P1080
        } else if str_eq(name, "720") {
            Quality::P720
        } else if str_eq(name, "audio") {
            Quality::AudioM4a
        } else if str_eq(name, "mp3") {
            Quality::Mp3
        } else {
            Quality::Custom(String::from_str(name))
        }
    }

    /// The yt-dlp arguments that realise this quality.
    pub fn ytdlp_args(&self) -> (res: Vec<String>)
        ensures
            strings_view(res@) == spec_ytdlp_args(self@),
    {
        match self {
            Quality::Mp3 => {
                // "--audio-quality 0" asks for the best VBR quality.
                let res = owned(
                    &["-f", "bestaudio/best", "--extract-audio", "--audio-format", "mp3", "--audio-quality", "0"],
                );
                res
            },
            Quality::Best => video_args("bestvideo+bestaudio/best"),
            Quality::P1080 => video_args("bestvideo[height<=1080]+bestaudio/best[height<=1080]/best"),
            Quality::P720 => video_args("bestvideo[height<=720]+bestaudio/best[height<=720]/best"),
            Quality::AudioM4a => video_args("bestaudio[ext=m4a]/bestaudio"),
            Quality::Custom(format) => video_args(format.as_str()),
        }
    }

    /// The extension the finished file is known to have, if any.
    pub fn output_extension(&self) -> (res: Option<&'static str>)
        ensures
            optional_str_view(res) == spec_output_extension(self@),
    {
        match self {
            Quality::Mp3 => Some("mp3"),
            _ => None,
        }
    }

    /// Whether downloading at this quality needs ffmpeg.
    pub fn needs_ffmpeg(&self) -> (res: bool)
        ensures
            res == spec_needs_ffmpeg(self@),
    {
        match self {
            Quality::AudioM4a => false,
            Quality::Custom(format) => rfind_char(format.as_str(), '+').is_some(),
            _ => true,
        }
    }
}

/// The view of an optional string slice.
pub open spec fn optional_str_view(s: Option<&str>) -> Option<Seq<char>> {
    match s {
        Some(t) => Some(t@),
        None => None,
    }
}

/// Standard download arguments for a video-style format selector.
fn video_args(format: &str) -> (res: Vec<String>)
    ensures
        strings_view(res@) == spec_video_args(format@),
{
    owned(&["-f", format, "--merge-output-format", "mp4"])
}

/// Owned copies of a list of string slices.
fn owned(args: &[&str]) -> (res: Vec<String>)
    ensures
        strings_view(res@) == args@.map_values(|s: &str| s@),
{
    let mut res: Vec<String> = Vec::new();
    let mut i: usize = 0;
    while i < args.len()
        invariant
            0 <= i <= args@.len(),
            strings_view(res@) == args@.take(i as int).map_values(|s: &str| s@),
        decreases args@.len() - i,
    {
        let ghost before = res@;
        let item = String::from_str(args[i]);
        res.push(item);
        proof {
            assert(res@ =~= before.push(item));
            assert(args@.take(i + 1) =~= args@.take(i as int).push(args@[i as int]));
            assert(strings_view(res@) =~= strings_view(before).push(item@));
            assert(args@.take(i + 1).map_values(|s: &str| s@) =~= args@.take(i as int).map_values(
                |s: &str| s@,
            ).push(args@[i as int]@));
        }
        i = i + 1;
    }
    assert(args@.take(args@.len() as int) =~= args@);
    res
}

/// Map a file extension to the HTTP `Content-Type` to serve it with.
pub fn content_type_for(extension: Option<&str>) -> (res: &'static str)
    ensures
        res@ == spec_content_type(optional_str_view(extension)),
{
    match extension {
        Some(e) => if str_eq(e, "mp3") {
            "audio/mpeg"
        } else if str_eq(e, "m4a") {
            "audio/mp4"
        } else if str_eq(e, "webm") {
            "audio/webm"
        } else {
            "video/mp4"
        },
        None => "video/mp4",
    }
}

/// Every quality but MP3 downloads video-style: a `-f` selector, then a
/// merge into MP4. MP3 extracts the audio and re-encodes it to MP3, and never
/// asks for an MP4 merge.
pub proof fn lemma_args_by_kind(q: QualityView)
    ensures
        !(q is Mp3) ==> {
            let a = spec_ytdlp_args(q);
            &&& a.len() == 4
            &&& a[0] == "-f"@
            &&& a[2] == "--merge-output-format"@
            &&& a[3] == "mp4"@
        },
        q is Mp3 ==> {
            let a = spec_ytdlp_args(q);
            &&& a[2] == "--extract-audio"@
            &&& a[3] == "--audio-format"@
            &&& a[4] == "mp3"@
            &&& forall|i: int| 0 <= i < a.len() ==> #[trigger] a[i] != "--merge-output-format"@
        },
{
    if q is Mp3 {
        reveal_strlit("-f");
        reveal_strlit("bestaudio/best");
        reveal_strlit("--extract-audio");
        reveal_strlit("--audio-format");
        reveal_strlit("mp3");
        reveal_strlit("--audio-quality");
        reveal_strlit("0");
        reveal_strlit("--merge-output-format");
        let a = spec_ytdlp_args(q);
        assert forall|i: int| 0 <= i < a.len() implies #[trigger] a[i] != "--merge-output-format"@ by {
            assert(a[i].len() != "--merge-output-format"@.len());
        }
    }
}

/// The characters of the quality names and preset format selectors.
proof fn lemma_quality_words()
    ensures
        "best"@ == seq!['b', 'e', 's', 't'],
        "1080"@ == seq!['1', '0', '8', '0'],
        "720"@ == seq!['7', '2', '0'],
        "audio"@ == seq!['a', 'u', 'd', 'i', 'o'],
        "mp3"@ == seq!['m', 'p', '3'],
        "bestaudio/best"@.len() == 14,
        "bestvideo+bestaudio/best"@.len() == 24,
        "bestvideo+bestaudio/best"@[9] == '+',
        "bestvideo[height<=1080]+bestaudio/best[height<=1080]/best"@.len() == 57,
        "bestvideo[height<=1080]+bestaudio/best[height<=1080]/best"@[23] == '+',
        "bestvideo[height<=720]+bestaudio/best[height<=720]/best"@.len() == 55,
        "bestvideo[height<=720]+bestaudio/best[height<=720]/best"@[22] == '+',
        "bestaudio[ext=m4a]/bestaudio"@.len() == 28,
        forall|i: int|
            0 <= i < 28 ==> #[trigger] "bestaudio[ext=m4a]/bestaudio"@[i] != '+',
        forall|i: int| 0 <= i < 14 ==> #[trigger] "bestaudio/best"@[i] != '+',
{
    reveal_strlit("best");
    reveal_strlit("1080");
    reveal_strlit("720");
    reveal_strlit("audio");
    reveal_strlit("mp3");
    reveal_strlit("bestaudio/best");
    reveal_strlit("bestvideo+bestaudio/best");
    reveal_strlit("bestvideo[height<=1080]+bestaudio/best[height<=1080]/best");
    reveal_strlit("bestvideo[height<=720]+bestaudio/best[height<=720]/best");
    reveal_strlit("bestaudio[ext=m4a]/bestaudio");
    assert("best"@ =~= seq!['b', 'e', 's', 't']);
    assert("1080"@ =~= seq!['1', '0', '8', '0']);
    assert("720"@ =~= seq!['7', '2', '0']);
    assert("audio"@ =~= seq!['a', 'u', 'd', 'i', 'o']);
    assert("mp3"@ =~= seq!['m', 'p', '3']);
}

/// Whether `s` holds the character `c`.
pub open spec fn contains_char(s: Seq<char>, c: char) -> bool {
    exists|i: int| 0 <= i < s.len() && s[i] == c
}

/// Each height preset caps the height at its own number: `1080` asks for
/// video of at most 1080 lines, `720` for at most 720 lines, so the two
/// selectors differ; and every preset asks yt-dlp for something different
/// from every other preset.
pub proof fn lemma_height_presets_cap_their_height(q: QualityView, r: QualityView)
    ensures
        q is P1080 ==> spec_ytdlp_args(q)[1]
            == "bestvideo[height<=1080]+bestaudio/best[height<=1080]/best"@,
        q is P720 ==> spec_ytdlp_args(q)[1]
            == "bestvideo[height<=720]+bestaudio/best[height<=720]/best"@,
        !(q is Custom) && !(r is Custom) && spec_ytdlp_args(q) == spec_ytdlp_args(r) ==> q == r,
{
    lemma_quality_words();
    reveal_strlit("--extract-audio");
    reveal_strlit("--merge-output-format");
    let a = spec_ytdlp_args(q);
    let b = spec_ytdlp_args(r);
    if !(q is Custom) && !(r is Custom) && a == b {
        assert(a.len() == b.len());
        assert(a[1] == b[1]);
        assert(a[1].len() == b[1].len());
    }
}

/// Every name other than the five quality words is handed to yt-dlp as the
/// format selector, exactly as given; `best` is chosen only for an absent
/// field or exactly `best`, and each preset only for exactly its own word.
pub proof fn lemma_unknown_names_pass_through(raw: Option<Seq<char>>)
    ensures
        spec_parse_quality(raw) is Best <==> (raw is None || raw == Some("best"@)),
        spec_parse_quality(raw) is P1080 <==> raw == Some("1080"@),
        spec_parse_quality(raw) is P720 <==> raw == Some("720"@),
        spec_parse_quality(raw) is AudioM4a <==> raw == Some("audio"@),
        spec_parse_quality(raw) is Mp3 <==> raw == Some("mp3"@),
        raw matches Some(s) ==> (s != "best"@ && s != "1080"@ && s != "720"@ && s != "audio"@ && s
            != "mp3"@ ==> spec_parse_quality(raw) == QualityView::Custom(s) && spec_ytdlp_args(
            spec_parse_quality(raw),
        ) == seq!["-f"@, s, "--merge-output-format"@, "mp4"@]),
{
    lemma_quality_words();
}

/// A quality needs ffmpeg exactly when yt-dlp must re-encode (MP3) or merge
/// separate streams (a `+` in its format selector).
pub proof fn lemma_ffmpeg_needed_to_merge_or_re_encode(q: QualityView)
    ensures
        spec_needs_ffmpeg(q) <==> (q is Mp3 || contains_char(spec_ytdlp_args(q)[1], '+')),
{
    lemma_quality_words();
    let sel = spec_ytdlp_args(q)[1];
    lemma_last_index_of(sel, '+');
    match q {
        QualityView::Best => assert(sel[9] == '+'),
        QualityView::P1080 => assert(sel[23] == '+'),
        QualityView::P720 => assert(sel[22] == '+'),
        _ => {},
    }
}

/// The presets ask yt-dlp for exactly these downloads: the best video and
/// audio merged to MP4; audio only as m4a; and for MP3 the best audio,
/// extracted and re-encoded to MP3 at the best VBR quality.
pub proof fn lemma_preset_arguments(q: QualityView)
    ensures
        q is Best ==> spec_ytdlp_args(q) == seq![
            "-f"@,
            "bestvideo+bestaudio/best"@,
            "--merge-output-format"@,
            "mp4"@,
        ],
        q is AudioM4a ==> spec_ytdlp_args(q) == seq![
            "-f"@,
            "bestaudio[ext=m4a]/bestaudio"@,
            "--merge-output-format"@,
            "mp4"@,
        ],
        q is Mp3 ==> spec_ytdlp_args(q) == seq![
            "-f"@,
            "bestaudio/best"@,
            "--extract-audio"@,
            "--audio-format"@,
            "mp3"@,
            "--audio-quality"@,
            "0"@,
        ],
        q matches QualityView::Custom(f) ==> spec_ytdlp_args(q) == seq![
            "-f"@,
            f,
            "--merge-output-format"@,
            "mp4"@,
        ],
{
}

/// The extension a quality guarantees is the audio format it asks yt-dlp to
/// produce: only MP3 has one, and its arguments request `--audio-format mp3`.
pub proof fn lemma_known_extension_is_the_requested_format(q: QualityView)
    ensures
        spec_output_extension(q) is Some <==> q is Mp3,
        spec_output_extension(q) matches Some(e) ==> spec_ytdlp_args(q)[3] == "--audio-format"@
            && spec_ytdlp_args(q)[4] == e && e == "mp3"@,
{
}

/// The content types served: MP3 as `audio/mpeg`, m4a as `audio/mp4`, WebM as
/// `audio/webm`, and anything else (or no extension) as `video/mp4`.
pub proof fn lemma_content_types(extension: Option<Seq<char>>)
    ensures
        extension == Some("mp3"@) ==> spec_content_type(extension) == "audio/mpeg"@,
        extension == Some("m4a"@) ==> spec_content_type(extension) == "audio/mp4"@,
        extension == Some("webm"@) ==> spec_content_type(extension) == "audio/webm"@,
        extension != Some("mp3"@) && extension != Some("m4a"@) && extension != Some("webm"@)
            ==> spec_content_type(extension) == "video/mp4"@,
{
    reveal_strlit("mp3");
    reveal_strlit("m4a");
    reveal_strlit("webm");
    assert("mp3"@ != "m4a"@) by {
        assert("mp3"@[1] != "m4a"@[1]);
    }
    assert("mp3"@.len() != "webm"@.len() && "m4a"@.len() != "webm"@.len());
}

} // verus!
