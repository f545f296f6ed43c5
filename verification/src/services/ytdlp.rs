//! The logic around the `yt-dlp` and `ffmpeg` command-line tools: the argument
//! vector of a download, reading `--dump-json` output and error output, and
//! locating and naming the finished file. Spawning the tools and touching the
//! file system happen in the binary, which hands the results to these
//! functions.

use vstd::prelude::*;
use vstd::utf8::{decode_utf8, valid_utf8};

use crate::domain::media::{
    content_type_for, spec_content_type, spec_needs_ffmpeg, spec_ytdlp_args,
    strings_view, Quality,
};
use crate::domain::naming::{
    display_filename, file_extension, optional_view, output_template, pick_output,
    spec_display_filename, spec_output_template, spec_pick_output, str_views,
};
use crate::error::{AppError, AppErrorView};
use crate::text::{
    has_prefix, last_index_of, lemma_last_index_of, opt_string_view, rfind_char, starts_with,
};

verus! {

/// Metadata about a video, as returned by `GET /api/info`.
#[derive(Debug)]
pub struct VideoInfo {
    pub title: String,
    pub duration: Option<String>,
    pub formats: Vec<FormatInfo>,
}

/// A single available format for a video.
#[derive(Debug)]
pub struct FormatInfo {
    pub format_id: String,
    pub ext: String,
    pub resolution: Option<String>,
    pub filesize: Option<u64>,
}

/// The mathematical value of a [`FormatInfo`].
pub struct FormatInfoView {
    pub format_id: Seq<char>,
    pub ext: Seq<char>,
    pub resolution: Option<Seq<char>>,
    pub filesize: Option<u64>,
}

/// The mathematical value of a [`VideoInfo`].
pub struct VideoInfoView {
    pub title: Seq<char>,
    pub duration: Option<Seq<char>>,
    pub formats: Seq<FormatInfoView>,
}

impl View for FormatInfo {
    type V = FormatInfoView;

    open spec fn view(&self) -> FormatInfoView {
        FormatInfoView {
            format_id: self.format_id@,
            ext: self.ext@,
            resolution: opt_string_view(self.resolution),
            filesize: self.filesize,
        }
    }
}

impl View for VideoInfo {
    type V = VideoInfoView;

    open spec fn view(&self) -> VideoInfoView {
        VideoInfoView {
            title: self.title@,
            duration: opt_string_view(self.duration),
            formats: self.formats@.map_values(|f: FormatInfo| f@),
        }
    }
}

/// The fields of one entry of `formats` in yt-dlp's `--dump-json` output that
/// are read: each string or non-negative integer, or `None` when the field is
/// missing or of another JSON type.
pub struct FormatJson {
    pub format_id: Option<String>,
    pub ext: Option<String>,
    pub resolution: Option<String>,
    pub filesize: Option<u64>,
}

/// The fields of yt-dlp's `--dump-json` output that are read, in the manner
/// of [`FormatJson`]; `formats` is `None` unless it is a JSON array.
pub struct VideoJson {
    pub title: Option<String>,
    pub duration_string: Option<String>,
    pub formats: Option<Vec<FormatJson>>,
}

/// The mathematical value of a [`FormatJson`].
pub struct FormatJsonView {
    pub format_id: Option<Seq<char>>,
    pub ext: Option<Seq<char>>,
    pub resolution: Option<Seq<char>>,
    pub filesize: Option<u64>,
}

/// The mathematical value of a [`VideoJson`].
pub struct VideoJsonView {
    pub title: Option<Seq<char>>,
    pub duration_string: Option<Seq<char>>,
    pub formats: Option<Seq<FormatJsonView>>,
}

impl View for FormatJson {
    type V = FormatJsonView;

    open spec fn view(&self) -> FormatJsonView {
        FormatJsonView {
            format_id: opt_string_view(self.format_id),
            ext: opt_string_view(self.ext),
            resolution: opt_string_view(self.resolution),
            filesize: self.filesize,
        }
    }
}

impl View for VideoJson {
    type V = VideoJsonView;

    open spec fn view(&self) -> VideoJsonView {
        VideoJsonView {
            title: opt_string_view(self.title),
            duration_string: opt_string_view(self.duration_string),
            formats: match self.formats {
                Some(v) => Some(v@.map_values(|f: FormatJson| f@)),
                None => None,
            },
        }
    }
}

/// The fields that `serde_json::from_slice` gives for the JSON text `bytes`
/// (`None` when it rejects `bytes`).
pub uninterp spec fn video_json_fields(bytes: Seq<u8>) -> Option<VideoJsonView>;

/// The format that a `formats` entry describes; `None` if it lacks a `format_id`.
pub open spec fn spec_parse_format(f: FormatJsonView) -> Option<FormatInfoView> {
    match f.format_id {
        Some(id) => Some(
            FormatInfoView {
                format_id: id,
                ext: match f.ext {
                    Some(e) => e,
                    None => "mp4"@,
                },
                resolution: f.resolution,
                filesize: f.filesize,
            },
        ),
        None => None,
    }
}

/// [`spec_parse_format`] as a function value.
pub open spec fn parse_format_fn() -> spec_fn(FormatJsonView) -> Option<FormatInfoView> {
    |f: FormatJsonView| spec_parse_format(f)
}

/// The video metadata that the `--dump-json` fields `json` describe.
pub open spec fn spec_parse_video_info(json: VideoJsonView) -> VideoInfoView {
    VideoInfoView {
        title: match json.title {
            Some(t) => t,
            None => "Unknown"@,
        },
        duration: json.duration_string,
        formats: match json.formats {
            Some(fs) => fs.filter_map(parse_format_fn()),
            None => Seq::empty(),
        },
    }
}

/// Parses the JSON text `bytes` with `serde_json::from_slice` into a
/// `serde_json::Value` and reads the fields of [`VideoJson`] from it
/// (`Value::get`, `as_str`, `as_array`, `as_u64`). The contract claims only
/// that the outcome is the one serde_json computes for `bytes`, named
/// [`video_json_fields`]; what that is for given bytes is not stated.
#[verifier::external_body]
fn decode_video_json(bytes: &[u8]) -> (res: Option<VideoJson>)
    ensures
        match res {
            Some(j) => video_json_fields(bytes@) == Some(j@),
            None => video_json_fields(bytes@) is None,
        },
{
    let v: serde_json::Value = serde_json::from_slice(bytes).ok()?;
    let text = |x: &serde_json::Value, key: &str| x.get(key).and_then(|f| f.as_str()).map(|s| s.to_string());
    let formats = v.get("formats").and_then(|f| f.as_array()).map(|a| a.iter().map(|f| FormatJson {
        format_id: text(f, "format_id"),
        ext: text(f, "ext"),
        resolution: text(f, "resolution"),
        filesize: f.get("filesize").and_then(|n| n.as_u64()),
    }).collect());
    Some(VideoJson { title: text(&v, "title"), duration_string: text(&v, "duration_string"), formats })
}

/// The metadata of a video from yt-dlp's `--dump-json` output `bytes`.
pub fn video_info_from_json(bytes: &[u8]) -> (res: Result<VideoInfo, AppError>)
    ensures
        match video_json_fields(bytes@) {
            Some(j) => res matches Ok(info) && info@ == spec_parse_video_info(j),
            None => res matches Err(e) && e@ == AppErrorView::Internal("Failed to parse video info"@),
        },
{
    match decode_video_json(bytes) {
        Some(json) => Ok(parse_video_info(&json)),
        None => Err(AppError::Internal(String::from_str("Failed to parse video info"))),
    }
}

/// Map yt-dlp's `--dump-json` fields onto a [`VideoInfo`].
pub fn parse_video_info(json: &VideoJson) -> (res: VideoInfo)
    ensures
        res@ == spec_parse_video_info(json@),
{
    let title = match &json.title {
        Some(t) => t.clone(),
        None => String::from_str("Unknown"),
    };
    let duration = match &json.duration_string {
        Some(d) => Some(d.clone()),
        None => None,
    };
    let mut formats: Vec<FormatInfo> = Vec::new();
    if let Some(entries) = &json.formats {
        let ghost all = entries@.map_values(|f: FormatJson| f@);
        let n = entries.len();
        let mut i: usize = 0;
        while i < n
            invariant
                n == entries@.len(),
                all == entries@.map_values(|f: FormatJson| f@),
                0 <= i <= n,
                formats@.map_values(|f: FormatInfo| f@) == all.take(i as int).filter_map(
                    parse_format_fn(),
                ),
            decreases n - i,
        {
            let ghost before = formats@;
            proof {
                all.lemma_filter_map_take_succ(parse_format_fn(), i as int);
            }
            let entry = parse_format(&entries[i]);
            if let Some(f) = entry {
                formats.push(f);
                assert(formats@ =~= before.push(f));
                assert(formats@.map_values(|f: FormatInfo| f@) =~= before.map_values(
                    |f: FormatInfo| f@,
                ).push(f@));
            }
            i = i + 1;
        }
        assert(all.take(n as int) =~= all);
    }
    let res = VideoInfo { title, duration, formats };
    assert(res@.formats =~= spec_parse_video_info(json@).formats);
    res
}

/// Map a single format entry; `None` if it lacks a `format_id`.
pub fn parse_format(f: &FormatJson) -> (res: Option<FormatInfo>)
    ensures
        match res {
            Some(info) => spec_parse_format(f@) == Some(info@),
            None => spec_parse_format(f@) is None,
        },
{
    let format_id = match &f.format_id {
        Some(id) => id.clone(),
        None => return None,
    };
    let ext = match &f.ext {
        Some(e) => e.clone(),
        None => String::from_str("mp4"),
    };
    let resolution = match &f.resolution {
        Some(r) => Some(r.clone()),
        None => None,
    };
    Some(FormatInfo { format_id, ext, resolution, filesize: f.filesize })
}

/// The bytes and metadata of a completed download, ready to stream to a client.
pub struct DownloadedMedia {
    pub filename: String,
    pub content_type: &'static str,
    pub bytes: Vec<u8>,
}

/// The standard library's owned file-system path, carried through unread.
#[verifier::external_type_specification]
#[verifier::external_body]
pub struct ExPathBuf(std::path::PathBuf);

/// A completed download still sitting on disk.
pub struct DownloadedFile {
    /// Where the file currently is: `<dir>/<file_id>-<title>.<ext>`.
    pub path: std::path::PathBuf,
    /// The name a user should see, with the internal id prefix removed.
    pub filename: String,
    pub content_type: &'static str,
}

/// Whether yt-dlp's own output should be shown to the user.
///
/// The web server captures it (so failures can be reported as JSON); the CLI
/// inherits the terminal so the progress bar is visible during a long download.
#[derive(Debug, Clone, Copy, PartialEq, Eq, Structural)]
pub enum Progress {
    Quiet,
    Inherit,
}

/// The full yt-dlp argument vector for downloading `url` at quality `q` to the
/// output template `template`.
pub open spec fn spec_download_args(url: Seq<char>, q: crate::domain::media::QualityView, template: Seq<char>) -> Seq<
    Seq<char>,
> {
    spec_ytdlp_args(q) + seq![
        "-o"@,
        template,
        "--no-playlist"@,
        "--restrict-filenames"@,
        url,
    ]
}

/// Assemble the full yt-dlp argument vector for a download.
///
/// `--restrict-filenames` keeps the title portion of the filename ASCII and
/// free of spaces, `&` and quotes, so it is safe in a `Content-Disposition`
/// header.
pub fn build_download_args(url: &str, quality: &Quality, output_template: &str) -> (res: Vec<String>)
    ensures
        strings_view(res@) == spec_download_args(url@, quality@, output_template@),
{
    let mut args = quality.ytdlp_args();
    let ghost head = args@;
    let mut tail: Vec<String> = Vec::new();
    tail.push(String::from_str("-o"));
    tail.push(String::from_str(output_template));
    tail.push(String::from_str("--no-playlist"));
    tail.push(String::from_str("--restrict-filenames"));
    tail.push(String::from_str(url));
    let ghost tail_view = tail@;
    args.append(&mut tail);
    assert(args@ =~= head + tail_view);
    assert(strings_view(args@) =~= strings_view(head) + strings_view(tail_view));
    assert(strings_view(tail_view) =~= seq![
        "-o"@,
        output_template@,
        "--no-playlist"@,
        "--restrict-filenames"@,
        url@,
    ]);
    args
}

/// What `String::from_utf8_lossy` makes of `bytes`.
pub uninterp spec fn utf8_lossy(bytes: Seq<u8>) -> Seq<char>;

/// Decodes `bytes` with `String::from_utf8_lossy`. The contract claims that
/// the text is the one std computes for `bytes`, named [`utf8_lossy`], and, as
/// std documents, that valid UTF-8 is decoded as it is; what replaces invalid
/// sequences is not stated.
#[verifier::external_body]
fn decode_lossy(bytes: &[u8]) -> (res: String)
    ensures
        res@ == utf8_lossy(bytes@),
        valid_utf8(bytes@) ==> res@ == decode_utf8(bytes@),
{
    String::from_utf8_lossy(bytes).into_owned()
}

/// The last line of `text` as `str::lines` splits it: lines end at `\n` or
/// `\r\n`, and a final line ending is optional. `None` for empty text.
pub open spec fn spec_last_line(text: Seq<char>) -> Option<Seq<char>> {
    if text.len() == 0 {
        None
    } else {
        let ended = text.last() == '\n';
        let body = if ended {
            text.drop_last()
        } else {
            text
        };
        let start = match last_index_of(body, '\n') {
            Some(i) => i + 1,
            None => 0,
        };
        let line = body.skip(start);
        if ended && line.len() > 0 && line.last() == '\r' {
            Some(line.drop_last())
        } else {
            Some(line)
        }
    }
}

/// The message [`last_error_line`] gives for the decoded error output `text`.
pub open spec fn spec_last_error_line(text: Seq<char>) -> Seq<char> {
    match spec_last_line(text) {
        Some(line) => line,
        None => "Unknown error"@,
    }
}

/// The last line of `text`, as `text.lines().last()` gives it.
pub fn last_line(text: &str) -> (res: Option<&str>)
    ensures
        optional_view(res) == spec_last_line(text@),
{
    let n = text.unicode_len();
    if n == 0 {
        return None;
    }
    let ended = text.get_char(n - 1) == '\n';
    let end = if ended {
        n - 1
    } else {
        n
    };
    let body = text.substring_char(0, end);
    assert(ended ==> body@ =~= text@.drop_last());
    assert(!ended ==> body@ =~= text@);
    proof {
        lemma_last_index_of(body@, '\n');
    }
    let start = match rfind_char(body, '\n') {
        Some(i) => i + 1,
        None => 0,
    };
    let line = body.substring_char(start, end);
    assert(line@ =~= body@.skip(start as int));
    let len = end - start;
    if ended && len > 0 && line.get_char(len - 1) == '\r' {
        let trimmed = line.substring_char(0, len - 1);
        assert(trimmed@ =~= line@.drop_last());
        Some(trimmed)
    } else {
        Some(line)
    }
}

/// The last (most relevant) line of yt-dlp's error output, for error messages.
pub fn last_error_line(stderr: &[u8]) -> (res: String)
    ensures
        res@ == spec_last_error_line(utf8_lossy(stderr@)),
{
    let text = decode_lossy(stderr);
    match last_line(text.as_str()) {
        Some(line) => String::from_str(line),
        None => String::from_str("Unknown error"),
    }
}

/// The error for a yt-dlp run that exited unsuccessfully, given its captured
/// error output. In [`Progress::Inherit`] mode yt-dlp wrote straight to the
/// terminal, so there is nothing captured to quote.
pub fn ytdlp_failure(progress: Progress, stderr: &[u8]) -> (res: AppError)
    ensures
        res@ == (match progress {
            Progress::Quiet => AppErrorView::YtDlp(spec_last_error_line(utf8_lossy(stderr@))),
            Progress::Inherit => AppErrorView::YtDlp(
                "yt-dlp exited with an error (see its output above)"@,
            ),
        }),
{
    match progress {
        Progress::Quiet => AppError::YtDlp(last_error_line(stderr)),
        Progress::Inherit => AppError::YtDlp(
            String::from_str("yt-dlp exited with an error (see its output above)"),
        ),
    }
}

/// Turn a failure to spawn yt-dlp, described by `detail`, into a friendly error.
pub fn spawn_error(detail: &str) -> (res: AppError)
    ensures
        res@ == AppErrorView::ToolUnavailable(
            "Failed to run yt-dlp: "@ + detail@ + ". Is it installed?"@,
        ),
{
    let mut message = String::from_str("Failed to run yt-dlp: ");
    message.append(detail);
    message.append(". Is it installed?");
    AppError::ToolUnavailable(message)
}

/// Whether `c` is a lower-case hexadecimal digit.
pub open spec fn is_lower_hex(c: char) -> bool {
    ('0' <= c && c <= '9') || ('a' <= c && c <= 'f')
}

/// Whether `s` is a version-4 UUID in hyphenated lower-case form, e.g.
/// `0c4f1b8e-1111-4222-8333-444455556666`.
pub open spec fn is_v4_uuid_text(s: Seq<char>) -> bool {
    &&& s.len() == 36
    &&& forall|i: int|
        0 <= i < 36 ==> if i == 8 || i == 13 || i == 18 || i == 23 {
            #[trigger] s[i] == '-'
        } else {
            is_lower_hex(s[i])
        }
    &&& s[14] == '4'
    &&& (s[19] == '8' || s[19] == '9' || s[19] == 'a' || s[19] == 'b')
}

/// Byte `i` of `v` in big-endian order (byte 0 is the most significant).
pub open spec fn be_byte(v: u128, i: int) -> u8 {
    ((v >> ((120 - 8 * i) as u128)) & 0xff) as u8
}

/// Byte `i` of the version-4 UUID built from the random value `random`: its
/// big-endian bytes, with the version (4) in the high half of byte 6 and the
/// RFC 4122 variant (binary `10`) in the top bits of byte 8.
pub open spec fn uuid_byte(random: u128, i: int) -> u8 {
    let b = be_byte(random, i);
    if i == 6 {
        (b & 0x0f) | 0x40
    } else if i == 8 {
        (b & 0x3f) | 0x80
    } else {
        b
    }
}

/// The lower-case hexadecimal digit for `n < 16`.
pub open spec fn lower_hex_digit(n: u8) -> char {
    if n < 10 {
        (48 + n) as char
    } else {
        (87 + n) as char
    }
}

/// Which hexadecimal digit stands at position `p` of the hyphenated text.
pub open spec fn hex_index(p: int) -> int {
    if p < 8 {
        p
    } else if p < 13 {
        p - 1
    } else if p < 18 {
        p - 2
    } else if p < 23 {
        p - 3
    } else {
        p - 4
    }
}

/// The character at position `p` of the hyphenated text of the UUID built
/// from `random`: groups of 8, 4, 4, 4 and 12 lower-case hex digits, two per
/// byte, high half first, separated by hyphens.
pub open spec fn uuid_char(random: u128, p: int) -> char {
    if p == 8 || p == 13 || p == 18 || p == 23 {
        '-'
    } else {
        let h = hex_index(p);
        let b = uuid_byte(random, h / 2);
        lower_hex_digit(
            if h % 2 == 0 {
                b >> 4
            } else {
                b & 0x0f
            },
        )
    }
}

/// The hyphenated lower-case text of the version-4 UUID built from `random`.
pub open spec fn spec_uuid_text(random: u128) -> Seq<char> {
    Seq::new(36, |p: int| uuid_char(random, p))
}

/// The id for a download, from the random value `random`: the UUID that
/// `uuid::Builder::from_random_bytes` builds from its big-endian bytes (which
/// sets the version and variant bits), rendered by `Uuid`'s `Display` impl
/// (`to_string`), as [`spec_uuid_text`] spells out.
#[verifier::external_body]
fn uuid_text(random: u128) -> (res: String)
    ensures
        res@ == spec_uuid_text(random),
{
    uuid::Builder::from_random_bytes(random.to_be_bytes()).into_uuid().to_string()
}

/// The text of a UUID built from any random value has the version-4 shape.
pub proof fn lemma_uuid_text_shape(random: u128)
    ensures
        is_v4_uuid_text(spec_uuid_text(random)),
{
    let t = spec_uuid_text(random);
    assert(forall|b: u8| #![auto] (b >> 4) < 16 && (b & 0x0f) < 16) by (bit_vector);
    assert(forall|b: u8| #![auto] ((b & 0x0f) | 0x40) >> 4 == 4) by (bit_vector);
    assert(forall|b: u8|
        #![auto]
        8 <= ((b & 0x3f) | 0x80) >> 4 && ((b & 0x3f) | 0x80) >> 4 <= 11) by (bit_vector);
    assert forall|i: int| 0 <= i < 36 implies if i == 8 || i == 13 || i == 18 || i == 23 {
        #[trigger] t[i] == '-'
    } else {
        is_lower_hex(t[i])
    } by {
        if !(i == 8 || i == 13 || i == 18 || i == 23) {
            let h = hex_index(i);
            let b = uuid_byte(random, h / 2);
            let n: u8 = if h % 2 == 0 {
                b >> 4
            } else {
                b & 0x0f
            };
            assert(n < 16);
        }
    }
    assert(uuid_byte(random, 6) >> 4 == 4);
    assert(8 <= uuid_byte(random, 8) >> 4 <= 11);
}

/// What a download is written as before yt-dlp runs: a unique id, and the
/// output template (a file name, to be joined to the download directory)
/// that carries it as a prefix.
pub struct DownloadPlan {
    pub file_id: String,
    pub template: String,
}

/// Start a download: derive its id from the random value `random` (drawn
/// fresh for each download by the caller) and the output template from the id.
pub fn plan_download(random: u128) -> (res: DownloadPlan)
    ensures
        res.file_id@ == spec_uuid_text(random),
        is_v4_uuid_text(res.file_id@),
        res.template@ == spec_output_template(res.file_id@),
{
    let file_id = uuid_text(random);
    proof {
        lemma_uuid_text_shape(random);
    }
    let template = output_template(file_id.as_str());
    DownloadPlan { file_id, template }
}

/// The names among `names` that begin with `prefix`, in order.
pub open spec fn names_with_prefix(names: Seq<Seq<char>>, prefix: Seq<char>) -> Seq<Seq<char>>
    decreases names.len(),
{
    if names.len() == 0 {
        names
    } else if has_prefix(names.last(), prefix) {
        names_with_prefix(names.drop_last(), prefix).push(names.last())
    } else {
        names_with_prefix(names.drop_last(), prefix)
    }
}

/// Locate the file yt-dlp produced among the directory entries `names`: its
/// extension isn't known in advance, so the names that carry the unique id
/// prefix are the candidates, and [`pick_output`] chooses among them.
pub fn locate_output(names: &Vec<String>, file_id: &str, expected_ext: Option<&str>) -> (res: Option<
    String,
>)
    ensures
        opt_string_view(res) == spec_pick_output(
            names_with_prefix(strings_view(names@), file_id@),
            optional_view(expected_ext),
        ),
{
    let ghost all = strings_view(names@);
    let mut matches: Vec<&str> = Vec::new();
    let n = names.len();
    let mut i: usize = 0;
    while i < n
        invariant
            n == names@.len(),
            all == strings_view(names@),
            0 <= i <= n,
            str_views(matches@) == names_with_prefix(all.take(i as int), file_id@),
        decreases n - i,
    {
        let name: &str = names[i].as_str();
        proof {
            assert(all.take(i + 1).drop_last() =~= all.take(i as int));
            assert(all.take(i + 1).last() == name@);
        }
        if starts_with(name, file_id) {
            let ghost before = matches@;
            matches.push(name);
            assert(matches@ =~= before.push(name));
            assert(str_views(matches@) =~= str_views(before).push(name@));
        }
        i = i + 1;
    }
    assert(all.take(n as int) =~= all);
    match pick_output(matches.as_slice(), expected_ext) {
        Some(chosen) => Some(String::from_str(chosen)),
        None => None,
    }
}

/// The extension of a file name, as `Path::extension` reads it.
fn extension_of(name: &str) -> (res: Option<&str>)
    ensures
        optional_view(res) == file_extension(name@),
{
    proof {
        lemma_last_index_of(name@, '.');
    }
    let len = name.unicode_len();
    match rfind_char(name, '.') {
        Some(i) if i > 0 => {
            let ext = name.substring_char(i + 1, len);
            assert(ext@ =~= name@.skip(i + 1));
            Some(ext)
        },
        _ => None,
    }
}

/// The name shown for a download with id `file_id` whose file on disk is
/// called `stored` (`None` when the path has no final component).
pub open spec fn spec_shown_name(stored: Option<Seq<char>>, file_id: Seq<char>) -> Seq<char> {
    match stored {
        Some(name) => spec_display_filename(name, file_id),
        None => file_id + ".mp4"@,
    }
}

/// The content type of a download whose file on disk is called `stored`.
pub open spec fn spec_stored_content_type(stored: Option<Seq<char>>) -> Seq<char> {
    match stored {
        Some(name) => spec_content_type(file_extension(name)),
        None => spec_content_type(None),
    }
}

impl DownloadedFile {
    /// Describe the finished download at `path`, whose final component is
    /// `stored_name`, for the download id `file_id`.
    pub fn from_stored(path: std::path::PathBuf, stored_name: Option<&str>, file_id: &str) -> (res: Self)
        ensures
            res.path == path,
            res.filename@ == spec_shown_name(optional_view(stored_name), file_id@),
            res.content_type@ == spec_stored_content_type(optional_view(stored_name)),
    {
        match stored_name {
            Some(name) => {
                let filename = display_filename(name, file_id);
                let content_type = content_type_for(extension_of(name));
                DownloadedFile { path, filename, content_type }
            },
            None => {
                let mut filename = String::from_str(file_id);
                filename.append(".mp4");
                DownloadedFile { path, filename, content_type: content_type_for(None) }
            },
        }
    }
}

/// The name to try at attempt `attempt` (counting from 1; 0 counts as 1)
/// when placing `filename` in a directory without overwriting: the name
/// itself first, then `Song (2).mp3`, `Song (3).mp3`, and so on.
pub open spec fn spec_candidate_name(filename: Seq<char>, attempt: nat) -> Seq<char> {
    if attempt <= 1 {
        filename
    } else {
        crate::domain::naming::spec_numbered_name(filename, attempt)
    }
}

/// The name to try at attempt `attempt` (counting from 1) when placing
/// `filename` in a directory without overwriting an existing file. Every
/// attempt has a name, and no two attempts share one.
pub fn candidate_name(filename: &str, attempt: u32) -> (res: String)
    ensures
        res@ == spec_candidate_name(filename@, attempt as nat),
{
    if attempt <= 1 {
        String::from_str(filename)
    } else {
        crate::domain::naming::numbered_name(filename, attempt)
    }
}

/// Whether `k` is the first attempt whose name is not among `taken`.
pub open spec fn is_first_free_attempt(filename: Seq<char>, taken: Seq<Seq<char>>, k: nat) -> bool {
    &&& 1 <= k <= u32::MAX
    &&& !taken.contains(spec_candidate_name(filename, k))
    &&& forall|j: nat| 1 <= j < k ==> taken.contains(#[trigger] spec_candidate_name(filename, j))
}

/// Whether `name` is one of `taken`.
fn is_taken(taken: &Vec<String>, name: &str) -> (res: bool)
    ensures
        res == strings_view(taken@).contains(name@),
{
    let ghost all = strings_view(taken@);
    let n = taken.len();
    let mut i: usize = 0;
    while i < n
        invariant
            n == taken@.len(),
            all == strings_view(taken@),
            0 <= i <= n,
            forall|j: int| 0 <= j < i ==> all[j] != name@,
        decreases n - i,
    {
        if crate::text::str_eq(taken[i].as_str(), name) {
            assert(all[i as int] == name@);
            return true;
        }
        i = i + 1;
    }
    false
}

/// The name under which `filename` can be placed in a directory whose
/// entries are `taken` without overwriting any of them: the name of the first
/// attempt (see [`candidate_name`]) that is not taken. `None` only when the
/// names of all attempts up to `u32::MAX` are taken, which needs at least
/// that many entries.
pub fn free_name(filename: &str, taken: &Vec<String>) -> (res: Option<String>)
    ensures
        match res {
            Some(name) => exists|k: nat|
                is_first_free_attempt(filename@, strings_view(taken@), k) && name@
                    == spec_candidate_name(filename@, k),
            None => forall|k: nat|
                1 <= k <= u32::MAX ==> strings_view(taken@).contains(
                    #[trigger] spec_candidate_name(filename@, k),
                ),
        },
        res is None ==> taken@.len() >= u32::MAX,
{
    let ghost all = strings_view(taken@);
    let mut attempt: u32 = 1;
    loop
        invariant
            1 <= attempt,
            all == strings_view(taken@),
            forall|j: nat| 1 <= j < attempt ==> all.contains(#[trigger] spec_candidate_name(filename@, j)),
        decreases u32::MAX - attempt,
    {
        let name = candidate_name(filename, attempt);
        if !is_taken(taken, name.as_str()) {
            assert(is_first_free_attempt(filename@, all, attempt as nat));
            return Some(name);
        }
        if attempt == u32::MAX {
            assert forall|k: nat| 1 <= k <= u32::MAX implies all.contains(
                #[trigger] spec_candidate_name(filename@, k),
            ) by {
                if k < attempt {
                } else {
                    assert(k == attempt);
                }
            }
            proof {
                if taken@.len() < u32::MAX {
                    lemma_free_name_exists(filename@, all);
                }
            }
            return None;
        }
        attempt = attempt + 1;
    }
}

/// There is at most one first free attempt, so [`free_name`] has one answer.
pub proof fn lemma_first_free_attempt_unique(filename: Seq<char>, taken: Seq<Seq<char>>, a: nat, b: nat)
    requires
        is_first_free_attempt(filename, taken, a),
        is_first_free_attempt(filename, taken, b),
    ensures
        a == b,
{
    if a < b {
        assert(taken.contains(spec_candidate_name(filename, a)));
    } else if b < a {
        assert(taken.contains(spec_candidate_name(filename, b)));
    }
}

/// When fewer names are taken than there are attempts, a free name is
/// always found: the attempts' names are pairwise distinct, so the taken
/// names can cover at most as many attempts as there are of them.
pub proof fn lemma_free_name_exists(filename: Seq<char>, taken: Seq<Seq<char>>)
    requires
        taken.len() < u32::MAX,
    ensures
        exists|k: nat| 1 <= k <= u32::MAX && !taken.contains(#[trigger] spec_candidate_name(filename, k)),
{
    let n = taken.len();
    if forall|k: nat| 1 <= k <= u32::MAX ==> taken.contains(#[trigger] spec_candidate_name(filename, k)) {
        // The first n + 1 attempts give n + 1 distinct names, all among the n taken ones.
        let names = Seq::new((n + 1) as nat, |i: int| spec_candidate_name(filename, (i + 1) as nat));
        assert forall|i: int, j: int| 0 <= i < j < names.len() implies names[i] != names[j] by {
            lemma_candidates_distinct(filename, (i + 1) as nat, (j + 1) as nat);
        }
        assert forall|i: int| 0 <= i < names.len() implies taken.contains(#[trigger] names[i]) by {
            assert(taken.contains(spec_candidate_name(filename, (i + 1) as nat)));
        }
        lemma_distinct_subset_len(names, taken);
    }
}

/// A sequence of distinct elements, each found in `b`, is no longer than `b`.
proof fn lemma_distinct_subset_len(a: Seq<Seq<char>>, b: Seq<Seq<char>>)
    requires
        forall|i: int, j: int| 0 <= i < j < a.len() ==> a[i] != a[j],
        forall|i: int| 0 <= i < a.len() ==> b.contains(#[trigger] a[i]),
    ensures
        a.len() <= b.len(),
{
    let sa = a.to_set();
    let sb = b.to_set();
    assert(a.no_duplicates()) by {
        assert forall|i: int, j: int| 0 <= i < a.len() && 0 <= j < a.len() && i != j implies a[i] != a[j] by {
            if i > j {
                assert(a[j] != a[i]);
            }
        }
    }
    assert(sa.subset_of(sb)) by {
        assert forall|x: Seq<char>| sa.contains(x) implies sb.contains(x) by {
            let i = choose|i: int| 0 <= i < a.len() && a[i] == x;
            assert(b.contains(a[i]));
        }
    }
    a.unique_seq_to_set();
    b.lemma_cardinality_of_set();
    vstd::seq_lib::seq_to_set_is_finite(b);
    vstd::set_lib::lemma_len_subset(sa, sb);
}

/// The verdict on whether the tools for a download at `quality` are there:
/// yt-dlp always, ffmpeg when the quality needs it.
pub open spec fn spec_check_tools(quality: crate::domain::media::QualityView, yt_dlp_ok: bool, ffmpeg_ok: bool) -> Result<
    (),
    AppErrorView,
> {
    if !yt_dlp_ok {
        Err(
            AppErrorView::ToolUnavailable(
                "yt-dlp is not on your PATH. Install it with `brew install yt-dlp` (or `make deps`)."@,
            ),
        )
    } else if spec_needs_ffmpeg(quality) && !ffmpeg_ok {
        Err(
            AppErrorView::ToolUnavailable(
                "This format needs ffmpeg, which is not on your PATH. Install it with `brew install ffmpeg`."@,
            ),
        )
    } else {
        Ok(())
    }
}

/// Fail early, with an actionable message, when a required tool is missing,
/// rather than letting yt-dlp fail halfway through with its own wording.
/// `yt_dlp_ok` and `ffmpeg_ok` say whether each tool ran; `ffmpeg_ok` is only
/// read when the quality needs ffmpeg.
pub fn check_tools(quality: &Quality, yt_dlp_ok: bool, ffmpeg_ok: bool) -> (res: Result<(), AppError>)
    ensures
        crate::error::unit_result_view(res) == spec_check_tools(quality@, yt_dlp_ok, ffmpeg_ok),
{
    if !yt_dlp_ok {
        return Err(
            AppError::ToolUnavailable(
                String::from_str(
                    "yt-dlp is not on your PATH. Install it with `brew install yt-dlp` (or `make deps`).",
                ),
            ),
        );
    }
    if quality.needs_ffmpeg() && !ffmpeg_ok {
        return Err(
            AppError::ToolUnavailable(
                String::from_str(
                    "This format needs ffmpeg, which is not on your PATH. Install it with `brew install ffmpeg`.",
                ),
            ),
        );
    }
    Ok(())
}

/// A download's arguments end with the output template after `-o`, then
/// `--no-playlist` and `--restrict-filenames`, and last the URL.
pub proof fn lemma_download_args_layout(url: Seq<char>, q: crate::domain::media::QualityView, template: Seq<char>)
    ensures
        ({
            let a = spec_download_args(url, q, template);
            let n = a.len() as int;
            &&& n >= 5
            &&& a[n - 1] == url
            &&& a[n - 2] == "--restrict-filenames"@
            &&& a[n - 3] == "--no-playlist"@
            &&& a[n - 4] == template
            &&& a[n - 5] == "-o"@
        }),
{
    let h = spec_ytdlp_args(q);
    let a = spec_download_args(url, q, template);
    assert(a.len() == h.len() + 5);
    assert(a[a.len() - 1] == url);
}

/// A download never passes `--trim-filenames`, which caps the length of the
/// whole rendered output path, directories included, and with an absolute
/// `-o` writes the file outside the requested directory. (Unless the caller
/// hands that very word in as the URL, the template or a custom format.)
pub proof fn lemma_download_args_never_trim(url: Seq<char>, q: crate::domain::media::QualityView, template: Seq<char>)
    requires
        url != "--trim-filenames"@,
        template != "--trim-filenames"@,
        q matches crate::domain::media::QualityView::Custom(f) ==> f != "--trim-filenames"@,
    ensures
        forall|i: int|
            0 <= i < spec_download_args(url, q, template).len() ==> #[trigger] spec_download_args(
                url,
                q,
                template,
            )[i] != "--trim-filenames"@,
{
    reveal_strlit("--trim-filenames");
    reveal_strlit("-f");
    reveal_strlit("bestaudio/best");
    reveal_strlit("--extract-audio");
    reveal_strlit("--audio-format");
    reveal_strlit("mp3");
    reveal_strlit("--audio-quality");
    reveal_strlit("0");
    reveal_strlit("--merge-output-format");
    reveal_strlit("mp4");
    reveal_strlit("bestvideo+bestaudio/best");
    reveal_strlit("bestvideo[height<=1080]+bestaudio/best[height<=1080]/best");
    reveal_strlit("bestvideo[height<=720]+bestaudio/best[height<=720]/best");
    reveal_strlit("bestaudio[ext=m4a]/bestaudio");
    reveal_strlit("-o");
    reveal_strlit("--no-playlist");
    reveal_strlit("--restrict-filenames");
    let a = spec_download_args(url, q, template);
    let h = spec_ytdlp_args(q);
    assert forall|i: int| 0 <= i < a.len() implies #[trigger] a[i] != "--trim-filenames"@ by {
        if i < h.len() {
            assert(a[i] == h[i]);
            if !(q is Custom && i == 1) {
                assert(h[i].len() != "--trim-filenames"@.len());
            }
        } else if a[i] != url && a[i] != template {
            assert(a[i].len() != "--trim-filenames"@.len());
        }
    }
}

/// The message taken from yt-dlp's error output is a single line: it holds no
/// line break.
pub proof fn lemma_error_line_is_one_line(text: Seq<char>)
    ensures
        spec_last_line(text) matches Some(line) ==> forall|i: int|
            0 <= i < line.len() ==> #[trigger] line[i] != '\n',
{
    if text.len() > 0 {
        let ended = text.last() == '\n';
        let body = if ended {
            text.drop_last()
        } else {
            text
        };
        lemma_last_index_of(body, '\n');
        let start = match last_index_of(body, '\n') {
            Some(i) => i + 1,
            None => 0,
        };
        let line = body.skip(start);
        assert forall|i: int| 0 <= i < line.len() implies #[trigger] line[i] != '\n' by {
            assert(line[i] == body[start + i]);
        }
        if ended && line.len() > 0 && line.last() == '\r' {
            assert forall|i: int| 0 <= i < line.drop_last().len() implies #[trigger] line.drop_last()[i]
                != '\n' by {
                assert(line.drop_last()[i] == line[i]);
            }
        }
    }
}

/// Every name tried after the first differs from the given name and keeps
/// its extension, so a collision is resolved without changing the file's type.
pub proof fn lemma_later_candidates_keep_extension(filename: Seq<char>, attempt: nat)
    requires
        attempt >= 2,
    ensures
        spec_candidate_name(filename, attempt) != filename,
        file_extension(spec_candidate_name(filename, attempt)) == file_extension(filename),
{
    crate::domain::naming::lemma_numbered_name_keeps_extension(filename, attempt);
}

/// No two attempts propose the same name, so trying them in turn until one is
/// free never lands on a name that was found taken.
pub proof fn lemma_candidates_distinct(filename: Seq<char>, a: nat, b: nat)
    requires
        1 <= a < b,
    ensures
        spec_candidate_name(filename, a) != spec_candidate_name(filename, b),
{
    crate::domain::naming::lemma_numbered_name_keeps_extension(filename, b);
    if a >= 2 {
        crate::domain::naming::lemma_numbered_name_injective(filename, a, b);
    }
}

/// A format entry is reported with the id and extension it carries, and with
/// its resolution and size as given; only an entry without an extension is
/// reported as `mp4`, and one without an id is dropped.
pub proof fn lemma_format_keeps_its_fields(f: FormatJsonView)
    ensures
        f.format_id is None ==> spec_parse_format(f) is None,
        f.format_id matches Some(id) ==> spec_parse_format(f) matches Some(info) && info.format_id
            == id && info.resolution == f.resolution && info.filesize == f.filesize && (
        f.ext matches Some(e) ==> info.ext == e) && (f.ext is None ==> info.ext == "mp4"@),
{
}

/// When every entry of `formats` carries an id and an extension, the video's
/// formats are those entries, in order, each with its own id and extension.
pub proof fn lemma_video_formats_keep_their_extensions(json: VideoJsonView)
    requires
        json.formats matches Some(fs) && forall|i: int|
            0 <= i < fs.len() ==> (#[trigger] fs[i]).format_id is Some && fs[i].ext is Some,
    ensures
        json.formats matches Some(fs) && spec_parse_video_info(json).formats.len() == fs.len()
            && forall|i: int|
            0 <= i < fs.len() ==> (#[trigger] spec_parse_video_info(json).formats[i]).format_id
                == fs[i].format_id->0 && spec_parse_video_info(json).formats[i].ext
                == fs[i].ext->0,
        json.title matches Some(t) ==> spec_parse_video_info(json).title == t,
{
    let fs = json.formats->0;
    lemma_filter_map_all_some(fs);
}

/// Over entries that all carry an id and an extension, `filter_map` with
/// [`parse_format_fn`] keeps every entry, with its id and extension.
proof fn lemma_filter_map_all_some(fs: Seq<FormatJsonView>)
    requires
        forall|i: int| 0 <= i < fs.len() ==> (#[trigger] fs[i]).format_id is Some && fs[i].ext is Some,
    ensures
        fs.filter_map(parse_format_fn()).len() == fs.len(),
        forall|i: int|
            0 <= i < fs.len() ==> (#[trigger] fs.filter_map(parse_format_fn())[i]).format_id
                == fs[i].format_id->0 && fs.filter_map(parse_format_fn())[i].ext == fs[i].ext->0,
    decreases fs.len(),
{
    if fs.len() > 0 {
        let rest = fs.drop_last();
        assert forall|i: int| 0 <= i < rest.len() implies (#[trigger] rest[i]).format_id is Some
            && rest[i].ext is Some by {
            assert(rest[i] == fs[i]);
        }
        lemma_filter_map_all_some(rest);
        let last = fs.last();
        assert(fs[fs.len() - 1] == last);
        let out = fs.filter_map(parse_format_fn());
        assert(out == rest.filter_map(parse_format_fn()) + seq![spec_parse_format(last)->0]);
        assert forall|i: int| 0 <= i < fs.len() implies (#[trigger] out[i]).format_id
            == fs[i].format_id->0 && out[i].ext == fs[i].ext->0 by {
            if i < rest.len() {
                assert(rest[i] == fs[i]);
            }
        }
    }
}

/// A missing yt-dlp always stops the download; with yt-dlp there, the
/// download is stopped exactly when the quality needs ffmpeg and ffmpeg is
/// missing. Every refusal says a tool is unavailable.
pub proof fn lemma_tools_checked_before_download(
    q: crate::domain::media::QualityView,
    yt_dlp_ok: bool,
    ffmpeg_ok: bool,
)
    ensures
        !yt_dlp_ok ==> spec_check_tools(q, yt_dlp_ok, ffmpeg_ok) is Err,
        yt_dlp_ok ==> (spec_check_tools(q, yt_dlp_ok, ffmpeg_ok) is Err <==> (spec_needs_ffmpeg(q)
            && !ffmpeg_ok)),
        spec_check_tools(q, yt_dlp_ok, ffmpeg_ok) matches Err(e) ==> e is ToolUnavailable,
        q is Mp3 && yt_dlp_ok && !ffmpeg_ok ==> spec_check_tools(q, yt_dlp_ok, ffmpeg_ok) is Err,
{
}

/// A final line ending is optional: text without line breaks is its own last
/// line, with or without a `\n` (or `\r\n`) after it.
pub proof fn lemma_last_line_of_one_line(text: Seq<char>)
    requires
        text.len() > 0,
        forall|i: int| 0 <= i < text.len() ==> text[i] != '\n' && text[i] != '\r',
    ensures
        spec_last_line(text) == Some(text),
        spec_last_line(text.push('\n')) == Some(text),
        spec_last_line(text.push('\r').push('\n')) == Some(text),
{
    lemma_last_index_of(text, '\n');
    assert(text.skip(0) =~= text);
    let t1 = text.push('\n');
    assert(t1.drop_last() =~= text);
    let t2 = text.push('\r').push('\n');
    let b2 = text.push('\r');
    assert(t2.drop_last() =~= b2);
    assert forall|j: int| 0 <= j < b2.len() implies b2[j] != '\n' by {
        if j < text.len() {
            assert(b2[j] == text[j]);
        }
    }
    lemma_last_index_of(b2, '\n');
    assert(b2.skip(0) =~= b2);
    assert(b2.drop_last() =~= text);
}

/// The message for empty error output is `Unknown error`; otherwise it is the
/// last line of the output.
pub proof fn lemma_error_line_default(text: Seq<char>)
    ensures
        text.len() == 0 ==> spec_last_error_line(text) == "Unknown error"@,
        text.len() > 0 ==> spec_last_line(text) is Some && spec_last_error_line(text)
            == spec_last_line(text)->0,
{
}

/// A download's arguments are the quality's own arguments, then the output
/// and naming options, then the URL.
pub proof fn lemma_download_args_start_with_quality(
    url: Seq<char>,
    q: crate::domain::media::QualityView,
    template: Seq<char>,
)
    ensures
        spec_download_args(url, q, template).len() == spec_ytdlp_args(q).len() + 5,
        spec_download_args(url, q, template).subrange(0, spec_ytdlp_args(q).len() as int)
            == spec_ytdlp_args(q),
{
    let a = spec_download_args(url, q, template);
    assert(a.subrange(0, spec_ytdlp_args(q).len() as int) =~= spec_ytdlp_args(q));
}

/// A video without a title is reported as `Unknown`, and one without a
/// `formats` array has no formats; the duration is reported as given.
pub proof fn lemma_video_defaults(json: VideoJsonView)
    ensures
        json.title is None ==> spec_parse_video_info(json).title == "Unknown"@,
        json.formats is None ==> spec_parse_video_info(json).formats.len() == 0,
        spec_parse_video_info(json).duration == json.duration_string,
{
}

/// The located file carries the download id as a prefix, is one of the
/// directory's entries, and has the expected extension whenever some such
/// entry does.
pub proof fn lemma_located_output(names: Seq<Seq<char>>, file_id: Seq<char>, expected_ext: Option<Seq<char>>)
    ensures
        spec_pick_output(names_with_prefix(names, file_id), expected_ext) matches Some(x)
            ==> has_prefix(x, file_id) && names.contains(x),
        spec_pick_output(names_with_prefix(names, file_id), expected_ext) is Some
            <==> exists|i: int| 0 <= i < names.len() && has_prefix(#[trigger] names[i], file_id),
{
    let m = names_with_prefix(names, file_id);
    crate::domain::naming::lemma_pick_output_choice(m, expected_ext);
    lemma_names_with_prefix(names, file_id);
    if m.len() > 0 {
        assert(m.contains(m[0]));
        let i = choose|i: int| 0 <= i < names.len() && names[i] == m[0];
        assert(has_prefix(names[i], file_id));
    }
    if exists|i: int| 0 <= i < names.len() && has_prefix(#[trigger] names[i], file_id) {
        let i = choose|i: int| 0 <= i < names.len() && has_prefix(#[trigger] names[i], file_id);
        assert(names.contains(names[i]));
        assert(m.contains(names[i]));
    }
}

/// `names_with_prefix` keeps exactly the names that carry the prefix.
proof fn lemma_names_with_prefix(names: Seq<Seq<char>>, prefix: Seq<char>)
    ensures
        forall|x: Seq<char>|
            #![trigger names_with_prefix(names, prefix).contains(x)]
            #![trigger names.contains(x)]
            names_with_prefix(names, prefix).contains(x) <==> (names.contains(x) && has_prefix(
                x,
                prefix,
            )),
    decreases names.len(),
{
    if names.len() > 0 {
        let rest = names.drop_last();
        lemma_names_with_prefix(rest, prefix);
        assert forall|x: Seq<char>|
            names_with_prefix(names, prefix).contains(x) <==> (names.contains(x) && has_prefix(
                x,
                prefix,
            )) by {
            if names.contains(x) && has_prefix(x, prefix) {
                let m = names_with_prefix(names, prefix);
                let r = names_with_prefix(rest, prefix);
                let i = choose|i: int| 0 <= i < names.len() && names[i] == x;
                if i < rest.len() {
                    assert(rest[i] == x);
                    assert(rest.contains(x));
                    assert(r.contains(x));
                    let j = choose|j: int| 0 <= j < r.len() && r[j] == x;
                    assert(m[j] == r[j]);
                    assert(m.contains(x));
                } else {
                    assert(m[m.len() - 1] == x);
                    assert(m.contains(x));
                }
            }
            if names_with_prefix(names, prefix).contains(x) {
                let m = names_with_prefix(names, prefix);
                let r = names_with_prefix(rest, prefix);
                let j = choose|j: int| 0 <= j < m.len() && m[j] == x;
                if has_prefix(names.last(), prefix) && j == m.len() - 1 {
                    assert(names[names.len() - 1] == x);
                } else {
                    assert(r[j] == x);
                    assert(r.contains(x));
                    let k = choose|k: int| 0 <= k < rest.len() && rest[k] == x;
                    assert(names[k] == rest[k]);
                }
            }
        }
    }
}

} // verus!
