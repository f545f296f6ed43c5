//! Command-line argument parsing.
//!
//! [`parse`] turns an argument list into a [`Command`] and nothing else, so
//! every accepted and rejected form is checked without running a download.
//! The binary is the only place that acts on the result.

use vstd::prelude::*;

use crate::domain::media::strings_view;
use crate::text::{has_prefix, starts_with, str_eq};

verus! {

/// What the user asked the binary to do.
#[derive(Debug, Clone, PartialEq, Eq)]
pub enum Command {
    /// Start the HTTP server and web UI (the default with no arguments).
    Serve,
    /// Print usage.
    Help,
    /// Download one URL straight to disk.
    Download {
        url: String,
        /// A `quality` value as understood by `Quality::parse`.
        quality: String,
        /// The directory to write the file into; `None` means the current directory.
        out_dir: Option<String>,
    },
}

/// The mathematical value of a [`Command`].
pub enum CommandView {
    Serve,
    Help,
    Download { url: Seq<char>, quality: Seq<char>, out_dir: Option<Seq<char>> },
}

impl View for Command {
    type V = CommandView;

    open spec fn view(&self) -> CommandView {
        match self {
            Command::Serve => CommandView::Serve,
            Command::Help => CommandView::Help,
            Command::Download { url, quality, out_dir } => CommandView::Download {
                url: url@,
                quality: quality@,
                out_dir: match out_dir {
                    Some(d) => Some(d@),
                    None => None,
                },
            },
        }
    }
}

/// The view of a parse outcome.
pub open spec fn parse_result_view(r: Result<Command, String>) -> Result<CommandView, Seq<char>> {
    match r {
        Ok(c) => Ok(c@),
        Err(e) => Err(e@),
    }
}

/// What the value that must follow `flag` gives, when `next` is what follows.
pub open spec fn spec_value_for(flag: Seq<char>, next: Option<Seq<char>>) -> Result<
    Seq<char>,
    Seq<char>,
> {
    match next {
        Some(v) if v.len() > 0 => Ok(v),
        _ => Err(flag + " needs a value."@),
    }
}

/// Whether `arg` names the quality option.
pub open spec fn is_quality_flag(arg: Seq<char>) -> bool {
    arg == "-q"@ || arg == "--quality"@
}

/// Whether `arg` names the output-directory option.
pub open spec fn is_out_flag(arg: Seq<char>) -> bool {
    arg == "-o"@ || arg == "--out"@ || arg == "--out-dir"@
}

/// The outcome of reading the download arguments `rest`, having read a URL
/// `url`, a quality `quality` and a directory `out_dir` before them.
pub open spec fn spec_parse_download(
    rest: Seq<Seq<char>>,
    url: Option<Seq<char>>,
    quality: Seq<char>,
    out_dir: Option<Seq<char>>,
) -> Result<CommandView, Seq<char>>
    decreases rest.len(),
{
    if rest.len() == 0 {
        match url {
            Some(u) => Ok(CommandView::Download { url: u, quality, out_dir }),
            None => Err("Missing URL."@),
        }
    } else {
        let arg = rest[0];
        let next = if rest.len() > 1 {
            Some(rest[1])
        } else {
            None
        };
        if is_quality_flag(arg) {
            match spec_value_for(arg, next) {
                Ok(v) => spec_parse_download(rest.skip(2), url, v, out_dir),
                Err(e) => Err(e),
            }
        } else if is_out_flag(arg) {
            match spec_value_for(arg, next) {
                Ok(v) => spec_parse_download(rest.skip(2), url, quality, Some(v)),
                Err(e) => Err(e),
            }
        } else if has_prefix(arg, seq!['-']) {
            Err("Unknown option: "@ + arg)
        } else if url is None {
            spec_parse_download(rest.skip(1), Some(arg), quality, out_dir)
        } else {
            Err("Unexpected argument: "@ + arg)
        }
    }
}

/// The outcome of parsing the arguments `args` that follow the program name.
pub open spec fn spec_parse(args: Seq<Seq<char>>) -> Result<CommandView, Seq<char>> {
    if args.len() == 0 {
        Ok(CommandView::Serve)
    } else {
        let first = args[0];
        if first == "serve"@ {
            Ok(CommandView::Serve)
        } else if first == "help"@ || first == "-h"@ || first == "--help"@ {
            Ok(CommandView::Help)
        } else if first == "mp3"@ {
            spec_parse_download(args.skip(1), None, "mp3"@, None)
        } else if first == "get"@ {
            spec_parse_download(args.skip(1), None, "best"@, None)
        } else if has_prefix(first, "http"@) {
            Err(
                "Missing command. Did you mean `udown mp3 "@ + first + "` or `udown get "@ + first
                    + "`?"@,
            )
        } else {
            Err("Unknown command: "@ + first)
        }
    }
}

/// Usage text, printed for `--help` and for a bad invocation.
pub const USAGE: &'static str = "\
udown — a tiny self-hosted YouTube downloader.

USAGE:
    udown                              Start the web UI + API on http://127.0.0.1:8080
    udown serve                        Same as above
    udown mp3 <URL> [-o DIR]           Download the audio as MP3
    udown get <URL> [-q Q] [-o DIR]    Download at a given quality
    udown --help                       Show this message

OPTIONS:
    -q, --quality Q    best (default), 1080, 720, audio (m4a), mp3,
                       or a raw yt-dlp format selector
    -o, --out DIR      Directory to write into (default: the current directory)

EXAMPLES:
    udown mp3 'https://www.youtube.com/watch?v=dQw4w9WgXcQ'
    udown mp3 'https://youtu.be/dQw4w9WgXcQ' -o ~/Music
    udown get 'https://youtu.be/dQw4w9WgXcQ' -q 720

The server writes to a temp directory (UDOWN_DOWNLOAD_DIR, default ./downloads)
and deletes each file after streaming it. The CLI keeps the file instead, named
after the video title.
";

/// Parse the arguments following the program name.
pub fn parse(args: &[String]) -> (res: Result<Command, String>)
    ensures
        parse_result_view(res) == spec_parse(strings_view(args@)),
{
    if args.len() == 0 {
        return Ok(Command::Serve);
    }
    let first: &str = args[0].as_str();
    assert(strings_view(args@)[0] == first@);
    assert(strings_view(args@).skip(1) =~= strings_view(args@.skip(1)));
    if str_eq(first, "serve") {
        Ok(Command::Serve)
    } else if str_eq(first, "help") || str_eq(first, "-h") || str_eq(first, "--help") {
        Ok(Command::Help)
    } else if str_eq(first, "mp3") {
        parse_download(args, 1, "mp3")
    } else if str_eq(first, "get") {
        parse_download(args, 1, "best")
    } else if starts_with(first, "http") {
        let mut message = String::from_str("Missing command. Did you mean `udown mp3 ");
        message.append(first);
        message.append("` or `udown get ");
        message.append(first);
        message.append("`?");
        Err(message)
    } else {
        let mut message = String::from_str("Unknown command: ");
        message.append(first);
        Err(message)
    }
}

/// Parse `<URL> [-q QUALITY] [-o DIR]`, from `args[start]` on, for the `mp3` /
/// `get` subcommands.
fn parse_download(args: &[String], start: usize, default_quality: &str) -> (res: Result<
    Command,
    String,
>)
    requires
        start <= args@.len(),
    ensures
        parse_result_view(res) == spec_parse_download(
            strings_view(args@).skip(start as int),
            None,
            default_quality@,
            None,
        ),
{
    let ghost all = strings_view(args@);
    let mut url: Option<String> = None;
    let mut quality = String::from_str(default_quality);
    let mut out_dir: Option<String> = None;
    let mut i = start;
    while i < args.len()
        invariant
            start <= i <= args@.len(),
            all == strings_view(args@),
            spec_parse_download(all.skip(start as int), None, default_quality@, None)
                == spec_parse_download(
                all.skip(i as int),
                match url {
                    Some(u) => Some(u@),
                    None => None,
                },
                quality@,
                match out_dir {
                    Some(d) => Some(d@),
                    None => None,
                },
            ),
        decreases args@.len() - i,
    {
        let arg: &str = args[i].as_str();
        let ghost rest = all.skip(i as int);
        proof {
            assert(rest[0] == arg@);
            if i + 1 < args.len() {
                assert(rest[1] == args@[i + 1]@);
            }
            assert(rest.skip(1) =~= all.skip(i + 1));
            reveal_strlit("-");
            assert("-"@ =~= seq!['-']);
        }
        let next: Option<&String> = if i + 1 < args.len() {
            Some(&args[i + 1])
        } else {
            None
        };
        if str_eq(arg, "-q") || str_eq(arg, "--quality") {
            quality = value_for(arg, next)?;
            assert(rest.skip(2) =~= all.skip(i + 2));
            i = i + 2;
        } else if str_eq(arg, "-o") || str_eq(arg, "--out") || str_eq(arg, "--out-dir") {
            out_dir = Some(value_for(arg, next)?);
            assert(rest.skip(2) =~= all.skip(i + 2));
            i = i + 2;
        } else if starts_with(arg, "-") {
            let mut message = String::from_str("Unknown option: ");
            message.append(arg);
            return Err(message);
        } else if url.is_none() {
            url = Some(String::from_str(arg));
            i = i + 1;
        } else {
            let mut message = String::from_str("Unexpected argument: ");
            message.append(arg);
            return Err(message);
        }
    }
    assert(all.skip(i as int).len() == 0);
    match url {
        Some(u) => Ok(Command::Download { url: u, quality, out_dir }),
        None => Err(String::from_str("Missing URL.")),
    }
}

/// Read the value that must follow `flag`.
fn value_for(flag: &str, next: Option<&String>) -> (res: Result<String, String>)
    ensures
        match res {
            Ok(v) => spec_value_for(flag@, match next {
                Some(n) => Some(n@),
                None => None,
            }) == Ok::<Seq<char>, Seq<char>>(v@),
            Err(e) => spec_value_for(flag@, match next {
                Some(n) => Some(n@),
                None => None,
            }) == Err::<Seq<char>, Seq<char>>(e@),
        },
{
    match next {
        Some(value) if value.as_str().unicode_len() > 0 => Ok(value.clone()),
        _ => {
            let mut message = String::from_str(flag);
            message.append(" needs a value.");
            Err(message)
        },
    }
}

/// Whether `arg` is read as the URL: it is not empty and is not an option.
pub open spec fn is_plain_arg(arg: Seq<char>) -> bool {
    arg.len() > 0 && !has_prefix(arg, seq!['-'])
}

/// `udown mp3 <URL>` downloads the audio as MP3 into the current directory,
/// and `udown get <URL>` downloads at the best quality.
pub proof fn lemma_subcommand_defaults(url: Seq<char>)
    requires
        is_plain_arg(url),
    ensures
        spec_parse(seq!["mp3"@, url]) == Ok::<CommandView, Seq<char>>(
            CommandView::Download { url, quality: "mp3"@, out_dir: None },
        ),
        spec_parse(seq!["get"@, url]) == Ok::<CommandView, Seq<char>>(
            CommandView::Download { url, quality: "best"@, out_dir: None },
        ),
{
    lemma_cli_words();
    lemma_plain_arg_is_no_flag(url);
    lemma_keywords_distinct();
    reveal_with_fuel(spec_parse_download, 3);
    let rest = seq![url];
    assert(seq!["mp3"@, url].skip(1) =~= rest);
    assert(seq!["get"@, url].skip(1) =~= rest);
    assert(rest.skip(1) =~= Seq::<Seq<char>>::empty());
    assert(rest[0] == url);
    assert(spec_parse_download(rest, None, "mp3"@, None) == spec_parse_download(
        Seq::<Seq<char>>::empty(),
        Some(url),
        "mp3"@,
        None,
    ));
}

/// An argument that is read as the URL names no option.
proof fn lemma_plain_arg_is_no_flag(arg: Seq<char>)
    requires
        is_plain_arg(arg),
    ensures
        !is_quality_flag(arg),
        !is_out_flag(arg),
{
    lemma_cli_words();
    if is_quality_flag(arg) || is_out_flag(arg) {
        assert(arg.subrange(0, 1) =~= seq!['-']);
    }
}

/// The quality and output-directory options may come before or after the URL
/// of a download, with the same outcome.
pub proof fn lemma_options_before_or_after_url(url: Seq<char>, quality: Seq<char>, dir: Seq<char>)
    requires
        is_plain_arg(url),
        quality.len() > 0,
        dir.len() > 0,
    ensures
        spec_parse(seq!["get"@, url, "-q"@, quality, "-o"@, dir]) == Ok::<CommandView, Seq<char>>(
            CommandView::Download { url, quality, out_dir: Some(dir) },
        ),
        spec_parse(seq!["get"@, "-o"@, dir, url, "-q"@, quality]) == spec_parse(
            seq!["get"@, url, "-q"@, quality, "-o"@, dir],
        ),
{
    lemma_cli_words();
    lemma_plain_arg_is_no_flag(url);
    lemma_keywords_distinct();
    reveal_with_fuel(spec_parse_download, 5);
    let a = seq!["get"@, url, "-q"@, quality, "-o"@, dir];
    let a1 = seq![url, "-q"@, quality, "-o"@, dir];
    let a2 = seq!["-q"@, quality, "-o"@, dir];
    let a3 = seq!["-o"@, dir];
    assert(a.skip(1) =~= a1);
    assert(a1.skip(1) =~= a2);
    assert(a2.skip(2) =~= a3);
    assert(a3.skip(2) =~= Seq::<Seq<char>>::empty());
    let b = seq!["get"@, "-o"@, dir, url, "-q"@, quality];
    let b1 = seq!["-o"@, dir, url, "-q"@, quality];
    let b2 = seq![url, "-q"@, quality];
    let b3 = seq!["-q"@, quality];
    assert(b.skip(1) =~= b1);
    assert(b1.skip(2) =~= b2);
    assert(b2.skip(1) =~= b3);
    assert(b3.skip(2) =~= Seq::<Seq<char>>::empty());
}

/// A bare URL, given with no subcommand, is refused with a message that
/// suggests `udown mp3 <URL>` and `udown get <URL>`.
pub proof fn lemma_bare_url_suggests_subcommand(url: Seq<char>)
    requires
        has_prefix(url, "http"@),
    ensures
        spec_parse(seq![url]) == Err::<CommandView, Seq<char>>(
            "Missing command. Did you mean `udown mp3 "@ + url + "` or `udown get "@ + url + "`?"@,
        ),
{
    lemma_cli_words();
    assert(url.subrange(0, 4) =~= seq!['h', 't', 't', 'p']);
    assert(url != "serve"@ && url != "help"@ && url != "-h"@ && url != "--help"@) by {
        if url == "serve"@ || url == "help"@ || url == "-h"@ || url == "--help"@ {
            assert(url.subrange(0, 4)[0] == 'h');
            assert(url.subrange(0, 4)[1] == 't');
        }
    }
    assert(url != "mp3"@ && url != "get"@) by {
        if url == "mp3"@ || url == "get"@ {
            assert(url.len() == 3);
        }
    }
}

/// The subcommand words differ from one another, and the option names are options.
proof fn lemma_keywords_distinct()
    ensures
        "mp3"@ != "serve"@,
        "mp3"@ != "help"@,
        "mp3"@ != "-h"@,
        "mp3"@ != "--help"@,
        "get"@ != "serve"@,
        "get"@ != "help"@,
        "get"@ != "-h"@,
        "get"@ != "--help"@,
        "get"@ != "mp3"@,
        is_quality_flag("-q"@),
        is_out_flag("-o"@),
        !is_out_flag("-q"@),
{
    lemma_cli_words();
    assert("mp3"@.len() == 3 && "get"@.len() == 3 && "serve"@.len() == 5 && "help"@.len() == 4);
    assert("-h"@.len() == 2 && "--help"@.len() == 6 && "--out"@.len() == 5 && "--out-dir"@.len() == 9);
    assert("mp3"@[0] == 'm' && "get"@[0] == 'g');
    assert("-q"@[1] == 'q' && "-o"@[1] == 'o');
}

/// The characters of the command words and option names.
proof fn lemma_cli_words()
    ensures
        "serve"@ == seq!['s', 'e', 'r', 'v', 'e'],
        "help"@ == seq!['h', 'e', 'l', 'p'],
        "-h"@ == seq!['-', 'h'],
        "--help"@ == seq!['-', '-', 'h', 'e', 'l', 'p'],
        "mp3"@ == seq!['m', 'p', '3'],
        "get"@ == seq!['g', 'e', 't'],
        "http"@ == seq!['h', 't', 't', 'p'],
        "-q"@ == seq!['-', 'q'],
        "--quality"@ == seq!['-', '-', 'q', 'u', 'a', 'l', 'i', 't', 'y'],
        "-o"@ == seq!['-', 'o'],
        "--out"@ == seq!['-', '-', 'o', 'u', 't'],
        "--out-dir"@ == seq!['-', '-', 'o', 'u', 't', '-', 'd', 'i', 'r'],
{
    reveal_strlit("serve");
    reveal_strlit("help");
    reveal_strlit("-h");
    reveal_strlit("--help");
    reveal_strlit("mp3");
    reveal_strlit("get");
    reveal_strlit("http");
    reveal_strlit("-q");
    reveal_strlit("--quality");
    reveal_strlit("-o");
    reveal_strlit("--out");
    reveal_strlit("--out-dir");
    assert("serve"@ =~= seq!['s', 'e', 'r', 'v', 'e']);
    assert("help"@ =~= seq!['h', 'e', 'l', 'p']);
    assert("-h"@ =~= seq!['-', 'h']);
    assert("--help"@ =~= seq!['-', '-', 'h', 'e', 'l', 'p']);
    assert("mp3"@ =~= seq!['m', 'p', '3']);
    assert("get"@ =~= seq!['g', 'e', 't']);
    assert("http"@ =~= seq!['h', 't', 't', 'p']);
    assert("-q"@ =~= seq!['-', 'q']);
    assert("--quality"@ =~= seq!['-', '-', 'q', 'u', 'a', 'l', 'i', 't', 'y']);
    assert("-o"@ =~= seq!['-', 'o']);
    assert("--out"@ =~= seq!['-', '-', 'o', 'u', 't']);
    assert("--out-dir"@ =~= seq!['-', '-', 'o', 'u', 't', '-', 'd', 'i', 'r']);
}

/// Whether two parse outcomes agree except that a download keeps the default
/// quality `q1` in the first where it keeps `q2` in the second.
pub open spec fn agree_but_default(
    r1: Result<CommandView, Seq<char>>,
    r2: Result<CommandView, Seq<char>>,
    q1: Seq<char>,
    q2: Seq<char>,
) -> bool {
    match (r1, r2) {
        (
            Ok(CommandView::Download { url: u1, quality: a, out_dir: o1 }),
            Ok(CommandView::Download { url: u2, quality: b, out_dir: o2 }),
        ) => u1 == u2 && o1 == o2 && (a == b || (a == q1 && b == q2)),
        (Err(e1), Err(e2)) => e1 == e2,
        _ => false,
    }
}

/// Reading the same download arguments from two default qualities agrees in
/// everything but which default survives.
proof fn lemma_download_default_only(
    rest: Seq<Seq<char>>,
    url: Option<Seq<char>>,
    q1: Seq<char>,
    q2: Seq<char>,
    out_dir: Option<Seq<char>>,
)
    ensures
        agree_but_default(
            spec_parse_download(rest, url, q1, out_dir),
            spec_parse_download(rest, url, q2, out_dir),
            q1,
            q2,
        ),
    decreases rest.len(),
{
    if rest.len() > 0 {
        let arg = rest[0];
        let next = if rest.len() > 1 {
            Some(rest[1])
        } else {
            None
        };
        if is_quality_flag(arg) {
            if let Ok(v) = spec_value_for(arg, next) {
                lemma_download_default_only(rest.skip(2), url, v, v, out_dir);
            }
        } else if is_out_flag(arg) {
            if let Ok(v) = spec_value_for(arg, next) {
                lemma_download_default_only(rest.skip(2), url, q1, q2, Some(v));
            }
        } else if !has_prefix(arg, seq!['-']) && url is None {
            lemma_download_default_only(rest.skip(1), Some(arg), q1, q2, out_dir);
        }
    }
}

/// `udown mp3 ...` and `udown get ...` read their arguments alike: the same
/// arguments give the same URL, the same output directory and the same
/// errors, and differ only in the quality used when none is given (`mp3`
/// against `best`).
pub proof fn lemma_mp3_and_get_read_alike(rest: Seq<Seq<char>>)
    ensures
        agree_but_default(
            spec_parse(seq!["mp3"@] + rest),
            spec_parse(seq!["get"@] + rest),
            "mp3"@,
            "best"@,
        ),
{
    lemma_cli_words();
    lemma_keywords_distinct();
    assert((seq!["mp3"@] + rest)[0] == "mp3"@);
    assert((seq!["get"@] + rest)[0] == "get"@);
    assert((seq!["mp3"@] + rest).skip(1) =~= rest);
    assert((seq!["get"@] + rest).skip(1) =~= rest);
    lemma_download_default_only(rest, None, "mp3"@, "best"@, None);
}

/// `-o DIR` (or `--out DIR`, `--out-dir DIR`) after the URL writes the
/// download into `DIR`, for both subcommands.
pub proof fn lemma_out_option_sets_the_directory(flag: Seq<char>, url: Seq<char>, dir: Seq<char>)
    requires
        flag == "-o"@ || flag == "--out"@ || flag == "--out-dir"@,
        is_plain_arg(url),
        dir.len() > 0,
    ensures
        spec_parse(seq!["mp3"@, url, flag, dir]) == Ok::<CommandView, Seq<char>>(
            CommandView::Download { url, quality: "mp3"@, out_dir: Some(dir) },
        ),
        spec_parse(seq!["get"@, url, flag, dir]) == Ok::<CommandView, Seq<char>>(
            CommandView::Download { url, quality: "best"@, out_dir: Some(dir) },
        ),
{
    lemma_cli_words();
    lemma_plain_arg_is_no_flag(url);
    lemma_keywords_distinct();
    reveal_with_fuel(spec_parse_download, 3);
    assert(!is_quality_flag(flag));
    assert(is_out_flag(flag));
    let a = seq![url, flag, dir];
    let a2 = seq![flag, dir];
    assert(seq!["mp3"@, url, flag, dir].skip(1) =~= a);
    assert(seq!["get"@, url, flag, dir].skip(1) =~= a);
    assert(a.skip(1) =~= a2);
    assert(a2.skip(2) =~= Seq::<Seq<char>>::empty());
}

/// No arguments, or `serve`, start the server; `help`, `-h` and `--help`
/// print usage; any further arguments after these words are ignored.
pub proof fn lemma_serve_and_help(rest: Seq<Seq<char>>)
    ensures
        spec_parse(Seq::empty()) == Ok::<CommandView, Seq<char>>(CommandView::Serve),
        spec_parse(seq!["serve"@] + rest) == Ok::<CommandView, Seq<char>>(CommandView::Serve),
        spec_parse(seq!["help"@] + rest) == Ok::<CommandView, Seq<char>>(CommandView::Help),
        spec_parse(seq!["-h"@] + rest) == Ok::<CommandView, Seq<char>>(CommandView::Help),
        spec_parse(seq!["--help"@] + rest) == Ok::<CommandView, Seq<char>>(CommandView::Help),
{
    lemma_cli_words();
    assert((seq!["serve"@] + rest)[0] == "serve"@);
    assert((seq!["help"@] + rest)[0] == "help"@);
    assert((seq!["-h"@] + rest)[0] == "-h"@);
    assert((seq!["--help"@] + rest)[0] == "--help"@);
}

/// An option whose value is missing or empty is refused, naming the option,
/// wherever it stands among the download arguments.
pub proof fn lemma_option_needs_a_value(
    before: Seq<Seq<char>>,
    flag: Seq<char>,
    url: Option<Seq<char>>,
    quality: Seq<char>,
    out_dir: Option<Seq<char>>,
)
    requires
        is_quality_flag(flag) || is_out_flag(flag),
    ensures
        spec_parse_download(seq![flag], url, quality, out_dir) == Err::<CommandView, Seq<char>>(
            flag + " needs a value."@,
        ),
        spec_parse_download(seq![flag, Seq::empty()] + before, url, quality, out_dir) == Err::<
            CommandView,
            Seq<char>,
        >(flag + " needs a value."@),
{
    assert((seq![flag, Seq::<char>::empty()] + before)[0] == flag);
    assert((seq![flag, Seq::<char>::empty()] + before)[1] == Seq::<char>::empty());
}

/// A first word that is no command is refused: `Unknown command: <word>`,
/// unless it looks like a URL, for which the subcommands are suggested.
pub proof fn lemma_unknown_command(word: Seq<char>, rest: Seq<Seq<char>>)
    requires
        word != "serve"@,
        word != "help"@,
        word != "-h"@,
        word != "--help"@,
        word != "mp3"@,
        word != "get"@,
        !has_prefix(word, "http"@),
    ensures
        spec_parse(seq![word] + rest) == Err::<CommandView, Seq<char>>(
            "Unknown command: "@ + word,
        ),
{
    assert((seq![word] + rest)[0] == word);
}

} // verus!
