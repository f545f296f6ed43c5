//! Output-filename logic: how a download is named on disk and in the
//! `Content-Disposition` header.
//!
//! Downloads are written as `<uuid>-<title>.<ext>` so that the file can still be
//! located by its unique id prefix (the extension isn't known until yt-dlp has
//! run) while carrying a human-readable title. The id is stripped again before
//! the name reaches a user.

use vstd::prelude::*;

use crate::text::{
    all_whitespace, decimal, decimal_string, ends_with, has_prefix, has_suffix, is_control,
    is_control_char, is_whitespace, is_whitespace_char, last_index_of, lemma_decimal_digits,
    lemma_decimal_injective, lemma_last_index_of, lemma_last_index_of_append,
    lemma_last_index_of_at, lemma_lex_le_antisymmetric, lemma_lex_le_total,
    lemma_lex_le_transitive, lex_le, rfind_char, starts_with, str_le,
};

verus! {

/// How many characters of the video title to keep in the filename.
///
/// Plus the 36-character id, a separator and an extension, this stays well
/// inside the 255-byte limit a single path component gets on macOS and Linux.
pub const TITLE_LIMIT: u32 = 100;

/// The `-o` template for the download with id `file_id`.
pub open spec fn spec_output_template(file_id: Seq<char>) -> Seq<char> {
    file_id + "-%(title)."@ + decimal(TITLE_LIMIT as nat) + "s.%(ext)s"@
}

/// `s` with every leading `c` removed.
pub open spec fn strip_leading(s: Seq<char>, c: char) -> Seq<char>
    decreases s.len(),
{
    if s.len() > 0 && s[0] == c {
        strip_leading(s.drop_first(), c)
    } else {
        s
    }
}

/// The name that is shown for `stored`, before unsafe characters are removed:
/// `stored` without the `<file_id>` prefix and the dashes after it, unless that
/// leaves nothing or only an extension.
pub open spec fn display_candidate(stored: Seq<char>, file_id: Seq<char>) -> Seq<char> {
    let stripped = if has_prefix(stored, file_id) {
        strip_leading(stored.skip(file_id.len() as int), '-')
    } else {
        stored
    };
    if stripped.len() == 0 || stripped[0] == '.' {
        stored
    } else {
        stripped
    }
}

/// Characters that would be unsafe in a header or a path.
pub open spec fn is_unsafe_char(c: char) -> bool {
    is_control(c) || c == '"' || c == '\\' || c == '/'
}

/// `s` with every unsafe character removed, the rest in order.
pub open spec fn without_unsafe(s: Seq<char>) -> Seq<char>
    decreases s.len(),
{
    if s.len() == 0 {
        s
    } else if is_unsafe_char(s.last()) {
        without_unsafe(s.drop_last())
    } else {
        without_unsafe(s.drop_last()).push(s.last())
    }
}

/// What [`sanitize`] makes of `name`.
pub open spec fn spec_sanitize(name: Seq<char>) -> Seq<char> {
    let cleaned = without_unsafe(name);
    if all_whitespace(cleaned) {
        "download"@
    } else {
        cleaned
    }
}

/// What [`display_filename`] makes of `stored` for the id `file_id`.
pub open spec fn spec_display_filename(stored: Seq<char>, file_id: Seq<char>) -> Seq<char> {
    spec_sanitize(display_candidate(stored, file_id))
}

/// What [`numbered_name`] makes of `filename` and `n`: ` (n)` inserted before
/// the text after the last dot, where that dot is not the first character.
pub open spec fn spec_numbered_name(filename: Seq<char>, n: nat) -> Seq<char> {
    match last_index_of(filename, '.') {
        Some(i) if i > 0 => filename.take(i) + " ("@ + decimal(n) + ")."@ + filename.skip(i + 1),
        _ => filename + " ("@ + decimal(n) + ")"@,
    }
}

/// The file-name ending for extension `ext`: a dot, then `ext`.
pub open spec fn ext_suffix(ext: Seq<char>) -> Seq<char> {
    seq!['.'] + ext
}

/// Whether `name` ends with `suffix`, where `None` accepts every name.
pub open spec fn fits_suffix(name: Seq<char>, suffix: Option<Seq<char>>) -> bool {
    match suffix {
        Some(t) => has_suffix(name, t),
        None => true,
    }
}

/// The views of a sequence of string slices.
pub open spec fn str_views(s: Seq<&str>) -> Seq<Seq<char>> {
    s.map_values(|t: &str| t@)
}

/// `x` is one of `names`, ends with `suffix`, and comes first in the order of
/// `lex_le` among the names that do.
pub open spec fn is_least_fitting(names: Seq<Seq<char>>, x: Seq<char>, suffix: Option<Seq<char>>) -> bool {
    &&& names.contains(x)
    &&& fits_suffix(x, suffix)
    &&& forall|j: int|
        0 <= j < names.len() && fits_suffix(#[trigger] names[j], suffix) ==> lex_le(x, names[j])
}

/// Whether some name ends with `suffix`.
pub open spec fn any_fits(names: Seq<Seq<char>>, suffix: Option<Seq<char>>) -> bool {
    exists|i: int| 0 <= i < names.len() && fits_suffix(#[trigger] names[i], suffix)
}

/// The first name, in the order of `lex_le`, among those ending with `suffix`.
pub open spec fn least_fitting_name(names: Seq<Seq<char>>, suffix: Option<Seq<char>>) -> Option<
    Seq<char>,
> {
    if any_fits(names, suffix) {
        Some(choose|x: Seq<char>| is_least_fitting(names, x, suffix))
    } else {
        None
    }
}

/// The name [`pick_output`] chooses among `names` for an expected extension:
/// the first name with that extension, or else the first name.
pub open spec fn spec_pick_output(names: Seq<Seq<char>>, expected_ext: Option<Seq<char>>) -> Option<
    Seq<char>,
> {
    let preferred = match expected_ext {
        Some(e) => least_fitting_name(names, Some(ext_suffix(e))),
        None => None,
    };
    match preferred {
        Some(x) => Some(x),
        None => least_fitting_name(names, None),
    }
}

/// The view of an optional string slice.
pub open spec fn optional_view(s: Option<&str>) -> Option<Seq<char>> {
    match s {
        Some(t) => Some(t@),
        None => None,
    }
}

/// There is at most one least fitting name.
pub proof fn lemma_least_fitting_unique(
    names: Seq<Seq<char>>,
    x: Seq<char>,
    y: Seq<char>,
    suffix: Option<Seq<char>>,
)
    requires
        is_least_fitting(names, x, suffix),
        is_least_fitting(names, y, suffix),
    ensures
        x == y,
{
    let i = choose|i: int| 0 <= i < names.len() && names[i] == x;
    let j = choose|j: int| 0 <= j < names.len() && names[j] == y;
    lemma_lex_le_antisymmetric(x, y);
}

/// A least fitting name, once found, is the one [`least_fitting_name`] names.
pub proof fn lemma_least_fitting_name(names: Seq<Seq<char>>, x: Seq<char>, suffix: Option<Seq<char>>)
    requires
        is_least_fitting(names, x, suffix),
    ensures
        least_fitting_name(names, suffix) == Some(x),
{
    let i = choose|i: int| 0 <= i < names.len() && names[i] == x;
    assert(fits_suffix(names[i], suffix));
    let y = choose|y: Seq<char>| is_least_fitting(names, y, suffix);
    lemma_least_fitting_unique(names, x, y, suffix);
}

/// The `-o` template for a download, given the unique id for this request.
///
/// The `%(title)s` / `%(ext)s` placeholders are expanded by yt-dlp, and the
/// `.100s` precision truncates the title field. Truncation belongs here, in
/// the template, and not in yt-dlp's `--trim-filenames`, which caps the length
/// of the whole rendered path, directories included, and with an absolute `-o`
/// writes the file outside the requested directory.
pub fn output_template(file_id: &str) -> (res: String)
    ensures
        res@ == spec_output_template(file_id@),
{
    let mut res = String::from_str(file_id);
    res.append("-%(title).");
    let limit = decimal_string(TITLE_LIMIT);
    res.append(limit.as_str());
    res.append("s.%(ext)s");
    res
}

/// Turn the name yt-dlp actually produced into the name a user should see, by
/// removing the `<file_id>-` prefix.
///
/// Falls back to the stored name when stripping would leave nothing useful,
/// e.g. a video with an empty title, which yields `<uuid>-.mp3`.
pub fn display_filename(stored_name: &str, file_id: &str) -> (res: String)
    ensures
        res@ == spec_display_filename(stored_name@, file_id@),
{
    let n = stored_name.unicode_len();
    let stripped: &str = if starts_with(stored_name, file_id) {
        let mut k = file_id.unicode_len();
        assert(stored_name@.skip(k as int) =~= stored_name@.subrange(k as int, n as int));
        while k < n && stored_name.get_char(k) == '-'
            invariant
                n == stored_name@.len(),
                file_id@.len() <= k <= n,
                strip_leading(stored_name@.skip(file_id@.len() as int), '-') == strip_leading(
                    stored_name@.subrange(k as int, n as int),
                    '-',
                ),
            decreases n - k,
        {
            assert(stored_name@.subrange(k as int, n as int).drop_first() =~= stored_name@.subrange(
                k + 1,
                n as int,
            ));
            k = k + 1;
        }
        stored_name.substring_char(k, n)
    } else {
        stored_name
    };
    let candidate: &str = if stripped.unicode_len() == 0 || stripped.get_char(0) == '.' {
        stored_name
    } else {
        stripped
    };
    sanitize(candidate)
}

/// Strip anything that would be unsafe in a header or a path, and never return
/// an empty or blank name.
///
/// `--restrict-filenames` already keeps yt-dlp's output to ASCII, but a raw
/// yt-dlp format string passed through as a custom quality could in principle
/// change that, and an unquoted `"` would break the header outright.
fn sanitize(name: &str) -> (res: String)
    ensures
        res@ == spec_sanitize(name@),
{
    let n = name.unicode_len();
    let mut cleaned = String::new();
    let mut blank = true;
    let mut i: usize = 0;
    while i < n
        invariant
            n == name@.len(),
            0 <= i <= n,
            cleaned@ == without_unsafe(name@.take(i as int)),
            blank == all_whitespace(cleaned@),
        decreases n - i,
    {
        let c = name.get_char(i);
        proof {
            assert(name@.take(i + 1).drop_last() =~= name@.take(i as int));
            assert(name@.take(i + 1).last() == c);
        }
        if !(is_control_char(c) || c == '"' || c == '\\' || c == '/') {
            let piece = name.substring_char(i, i + 1);
            assert(piece@ =~= seq![c]);
            let ghost before = cleaned@;
            cleaned.append(piece);
            blank = blank && is_whitespace_char(c);
            proof {
                assert(cleaned@ =~= before.push(c));
                assert(cleaned@[before.len() as int] == c);
                if all_whitespace(cleaned@) {
                    assert(is_whitespace(cleaned@[before.len() as int]));
                    assert forall|j: int| 0 <= j < before.len() implies is_whitespace(#[trigger] before[j]) by {
                        assert(cleaned@[j] == before[j]);
                    }
                }
            }
        }
        i = i + 1;
    }
    assert(name@.take(n as int) =~= name@);
    if blank {
        String::from_str("download")
    } else {
        cleaned
    }
}

/// Insert ` (n)` before the extension, to avoid overwriting an existing file:
/// `Song.mp3` and 2 give `Song (2).mp3`.
pub fn numbered_name(filename: &str, n: u32) -> (res: String)
    ensures
        res@ == spec_numbered_name(filename@, n as nat),
{
    let number = decimal_string(n);
    proof {
        lemma_last_index_of(filename@, '.');
    }
    match rfind_char(filename, '.') {
        Some(i) if i > 0 => {
            let len = filename.unicode_len();
            let mut res = String::from_str(filename.substring_char(0, i));
            res.append(" (");
            res.append(number.as_str());
            res.append(").");
            res.append(filename.substring_char(i + 1, len));
            assert(filename@.subrange(0, i as int) =~= filename@.take(i as int));
            assert(filename@.subrange(i + 1, len as int) =~= filename@.skip(i + 1));
            res
        },
        _ => {
            let mut res = String::from_str(filename);
            res.append(" (");
            res.append(number.as_str());
            res.append(")");
            res
        },
    }
}

/// Choose which of several files yt-dlp left behind is the finished download.
///
/// A download is located by its unique id prefix, because the extension isn't
/// known until yt-dlp has picked a format. Usually exactly one file matches,
/// but yt-dlp can leave an intermediate beside the result (the source file it
/// re-encoded from), and then two do. When the requested quality guarantees an
/// extension, that is the tie-break; otherwise the lowest name wins, so the
/// choice does not depend on the order in which the directory was read.
///
/// `candidates` need not be sorted.
pub fn pick_output<'a>(candidates: &[&'a str], expected_ext: Option<&str>) -> (res: Option<&'a str>)
    ensures
        optional_view(res) == spec_pick_output(str_views(candidates@), optional_view(expected_ext)),
        res matches Some(x) ==> exists|i: int| 0 <= i < candidates@.len() && candidates@[i] == x,
{
    let ghost names = str_views(candidates@);
    if let Some(ext) = expected_ext {
        let mut suffix = String::from_str(".");
        suffix.append(ext);
        proof {
            reveal_strlit(".");
        }
        assert(suffix@ =~= ext_suffix(ext@));
        let matched = least_fitting(candidates, Some(suffix.as_str()));
        if let Some(x) = matched {
            proof {
                lemma_least_fitting_name(names, x@, Some(ext_suffix(ext@)));
            }
            return matched;
        }
    }
    let res = least_fitting(candidates, None);
    proof {
        if let Some(x) = res {
            lemma_least_fitting_name(names, x@, None);
        } else if candidates@.len() > 0 {
            assert(fits_suffix(names[0], None));
        }
    }
    res
}

/// The first candidate, in the order of `lex_le`, among those ending with
/// `suffix` (all of them when `suffix` is `None`).
fn least_fitting<'a>(candidates: &[&'a str], suffix: Option<&str>) -> (res: Option<&'a str>)
    ensures
        match res {
            Some(x) => {
                &&& is_least_fitting(str_views(candidates@), x@, optional_view(suffix))
                &&& exists|i: int| 0 <= i < candidates@.len() && candidates@[i] == x
            },
            None => !any_fits(str_views(candidates@), optional_view(suffix)),
        },
{
    let ghost sfx = optional_view(suffix);
    let ghost names = str_views(candidates@);
    let n = candidates.len();
    let mut best: Option<&'a str> = None;
    let mut i: usize = 0;
    while i < n
        invariant
            n == candidates@.len(),
            names == str_views(candidates@),
            0 <= i <= n,
            sfx == optional_view(suffix),
            match best {
                Some(x) => {
                    &&& exists|k: int| 0 <= k < i && candidates@[k] == x
                    &&& fits_suffix(x@, sfx)
                    &&& forall|j: int|
                        0 <= j < i && fits_suffix(#[trigger] names[j], sfx) ==> lex_le(x@, names[j])
                },
                None => forall|j: int| 0 <= j < i ==> !fits_suffix(#[trigger] names[j], sfx),
            },
        decreases n - i,
    {
        let c: &'a str = candidates[i];
        assert(names[i as int] == c@);
        let fits = match suffix {
            Some(t) => ends_with(c, t),
            None => true,
        };
        if fits {
            match best {
                None => {
                    proof {
                        lemma_lex_le_total(c@, c@);
                    }
                    best = Some(c);
                    assert(candidates@[i as int] == c);
                },
                Some(b) => {
                    if !str_le(b, c) {
                        proof {
                            lemma_lex_le_total(b@, c@);
                            assert forall|j: int|
                                0 <= j < i + 1 && fits_suffix(#[trigger] names[j], sfx) implies lex_le(
                                c@,
                                names[j],
                            ) by {
                                if j < i {
                                    lemma_lex_le_transitive(c@, b@, names[j]);
                                } else {
                                    lemma_lex_le_total(c@, c@);
                                }
                            }
                        }
                        best = Some(c);
                        assert(candidates@[i as int] == c);
                    }
                },
            }
        }
        i = i + 1;
    }
    proof {
        if let Some(x) = best {
            let k = choose|k: int| 0 <= k < i && candidates@[k] == x;
            assert(names[k] == x@);
        }
    }
    best
}

/// The extension of a file name as `Path::extension` reads it: the text after
/// the last dot, unless there is no dot or the only one is the first character.
pub open spec fn file_extension(name: Seq<char>) -> Option<Seq<char>> {
    match last_index_of(name, '.') {
        Some(i) if i > 0 => Some(name.skip(i + 1)),
        _ => None,
    }
}

/// `numbered_name` keeps the extension of a name, as `Path::extension` reads
/// it, and gives a name longer than the one it started from, so never the
/// name itself.
pub proof fn lemma_numbered_name_keeps_extension(filename: Seq<char>, n: nat)
    ensures
        file_extension(spec_numbered_name(filename, n)) == file_extension(filename),
        spec_numbered_name(filename, n).len() > filename.len(),
{
    reveal_strlit(" (");
    reveal_strlit(").");
    reveal_strlit(")");
    lemma_decimal_digits(n);
    lemma_last_index_of(filename, '.');
    let d = decimal(n);
    let r = spec_numbered_name(filename, n);
    match last_index_of(filename, '.') {
        Some(i) if i > 0 => {
            let head = filename.take(i) + " ("@ + d + ")"@;
            let tail = filename.skip(i + 1);
            assert(r =~= head + seq!['.'] + tail);
            let k = head.len() as int;
            assert(r[k] == '.');
            assert forall|j: int| k < j < r.len() implies r[j] != '.' by {
                assert(r[j] == tail[j - k - 1]);
                assert(tail[j - k - 1] == filename[j - k + i]);
            }
            lemma_last_index_of_at(r, '.', k);
            assert(r.skip(k + 1) =~= tail);
        },
        _ => {
            let t = " ("@ + d + ")"@;
            assert(r =~= filename + t);
            assert forall|j: int| 0 <= j < t.len() implies t[j] != '.' by {
                if 2 <= j < 2 + d.len() {
                    assert(t[j] == d[j - 2]);
                }
            }
            lemma_last_index_of_append(filename, t, '.');
        },
    }
}

/// `without_unsafe` keeps no unsafe character.
pub proof fn lemma_without_unsafe_is_safe(s: Seq<char>)
    ensures
        forall|i: int| 0 <= i < without_unsafe(s).len() ==> !is_unsafe_char(#[trigger] without_unsafe(s)[i]),
    decreases s.len(),
{
    if s.len() > 0 {
        let prev = without_unsafe(s.drop_last());
        lemma_without_unsafe_is_safe(s.drop_last());
        if !is_unsafe_char(s.last()) {
            assert forall|i: int| 0 <= i < prev.push(s.last()).len() implies !is_unsafe_char(
                #[trigger] prev.push(s.last())[i],
            ) by {
                if i < prev.len() {
                    assert(prev.push(s.last())[i] == prev[i]);
                }
            }
        }
    }
}

/// `without_unsafe` leaves a sequence of safe characters as it is.
pub proof fn lemma_without_unsafe_keeps_safe(s: Seq<char>)
    requires
        forall|i: int| 0 <= i < s.len() ==> !is_unsafe_char(#[trigger] s[i]),
    ensures
        without_unsafe(s) == s,
    decreases s.len(),
{
    if s.len() > 0 {
        lemma_without_unsafe_keeps_safe(s.drop_last());
        assert(s.drop_last().push(s.last()) =~= s);
    }
}

/// The output template carries the download id as a prefix, bounds the title
/// field itself with a `%(title).100s` precision, and ends with the
/// extension placeholder: `<id>-%(title).100s.%(ext)s`.
pub proof fn lemma_template_layout(file_id: Seq<char>)
    ensures
        spec_output_template(file_id) == file_id + "-%(title).100s.%(ext)s"@,
        has_prefix(spec_output_template(file_id), file_id),
{
    reveal_strlit("-%(title).");
    reveal_strlit("s.%(ext)s");
    reveal_strlit("-%(title).100s.%(ext)s");
    assert(decimal(10) == seq!['1', '0']) by {
        reveal_with_fuel(decimal, 2);
    }
    assert(decimal(100) == seq!['1', '0', '0']) by {
        reveal_with_fuel(decimal, 3);
    }
    assert(spec_output_template(file_id) =~= file_id + "-%(title).100s.%(ext)s"@);
    assert(spec_output_template(file_id).subrange(0, file_id.len() as int) =~= file_id);
}

/// Whether `title` is shown unchanged: not empty, not starting with a dot or
/// a dash, free of unsafe characters, and not blank.
pub open spec fn is_plain_title(title: Seq<char>) -> bool {
    &&& title.len() > 0
    &&& title[0] != '.'
    &&& title[0] != '-'
    &&& forall|i: int| 0 <= i < title.len() ==> !is_unsafe_char(#[trigger] title[i])
    &&& !all_whitespace(title)
}

/// The display name undoes the naming on disk: a file stored as
/// `<id>-<rest>`, where `rest` is a plain title, is shown as `rest`.
pub proof fn lemma_display_strips_the_id(file_id: Seq<char>, rest: Seq<char>)
    requires
        is_plain_title(rest),
    ensures
        spec_display_filename(file_id + seq!['-'] + rest, file_id) == rest,
{
    let stored = file_id + seq!['-'] + rest;
    assert(stored.subrange(0, file_id.len() as int) =~= file_id);
    let tail = stored.skip(file_id.len() as int);
    assert(tail =~= seq!['-'] + rest);
    assert(tail.drop_first() =~= rest);
    assert(strip_leading(tail, '-') == strip_leading(rest, '-'));
    assert(strip_leading(rest, '-') == rest);
    lemma_without_unsafe_keeps_safe(rest);
}

/// The name shown for a download is never empty and never holds a control
/// character, a quote, a backslash or a slash, so it is safe inside a quoted
/// header value and as a single path component.
pub proof fn lemma_display_name_is_safe(stored: Seq<char>, file_id: Seq<char>)
    ensures
        spec_display_filename(stored, file_id).len() > 0,
        forall|i: int|
            0 <= i < spec_display_filename(stored, file_id).len() ==> !is_unsafe_char(
                #[trigger] spec_display_filename(stored, file_id)[i],
            ),
{
    let cleaned = without_unsafe(display_candidate(stored, file_id));
    lemma_without_unsafe_is_safe(display_candidate(stored, file_id));
    reveal_strlit("download");
    if all_whitespace(cleaned) {
        assert("download"@ =~= seq!['d', 'o', 'w', 'n', 'l', 'o', 'a', 'd']);
    } else {
        assert(cleaned.len() > 0);
    }
}

/// `pick_output` chooses a name whenever there is a candidate, prefers one
/// with the expected extension when there is one, and returns one of the
/// candidates.
pub proof fn lemma_pick_output_choice(names: Seq<Seq<char>>, expected_ext: Option<Seq<char>>)
    ensures
        spec_pick_output(names, expected_ext) is Some <==> names.len() > 0,
        spec_pick_output(names, expected_ext) matches Some(x) ==> names.contains(x),
        expected_ext matches Some(e) ==> (any_fits(names, Some(ext_suffix(e))) ==> (
        spec_pick_output(names, expected_ext) matches Some(x) && has_suffix(x, ext_suffix(e)))),
{
    if let Some(e) = expected_ext {
        if any_fits(names, Some(ext_suffix(e))) {
            lemma_least_fitting_exists(names, Some(ext_suffix(e)));
        }
    }
    if names.len() > 0 {
        assert(fits_suffix(names[0], None));
        lemma_least_fitting_exists(names, None);
    }
}

/// Where some name fits, a least fitting name exists.
pub proof fn lemma_least_fitting_exists(names: Seq<Seq<char>>, suffix: Option<Seq<char>>)
    requires
        any_fits(names, suffix),
    ensures
        is_least_fitting(names, least_fitting_name(names, suffix)->0, suffix),
    decreases names.len(),
{
    let k = choose|k: int| 0 <= k < names.len() && fits_suffix(names[k], suffix);
    let rest = names.drop_last();
    let last = names.last();
    let witness = if any_fits(rest, suffix) {
        lemma_least_fitting_exists(rest, suffix);
        let m = least_fitting_name(rest, suffix)->0;
        let i = choose|i: int| 0 <= i < rest.len() && rest[i] == m;
        assert(names[i] == m);
        if fits_suffix(last, suffix) && !lex_le(m, last) {
            lemma_lex_le_total(m, last);
            assert forall|j: int| 0 <= j < names.len() && fits_suffix(#[trigger] names[j], suffix) implies lex_le(last, names[j]) by {
                if j < rest.len() {
                    assert(rest[j] == names[j]);
                    lemma_lex_le_transitive(last, m, names[j]);
                } else {
                    lemma_lex_le_total(last, last);
                }
            }
            assert(names[names.len() - 1] == last);
            last
        } else {
            assert forall|j: int| 0 <= j < names.len() && fits_suffix(#[trigger] names[j], suffix) implies lex_le(m, names[j]) by {
                if j < rest.len() {
                    assert(rest[j] == names[j]);
                }
            }
            m
        }
    } else {
        assert(k == names.len() - 1) by {
            if k < names.len() - 1 {
                assert(rest[k] == names[k]);
            }
        }
        lemma_lex_le_total(last, last);
        assert forall|j: int| 0 <= j < names.len() && fits_suffix(#[trigger] names[j], suffix) implies lex_le(last, names[j]) by {
            if j < rest.len() {
                assert(rest[j] == names[j]);
            }
        }
        assert(names[names.len() - 1] == last);
        last
    };
    lemma_least_fitting_name(names, witness, suffix);
}

/// The choice of `pick_output` depends only on which names are candidates,
/// not on the order in which they are listed (the order a directory is read
/// in, say).
pub proof fn lemma_pick_output_ignores_order(
    a: Seq<Seq<char>>,
    b: Seq<Seq<char>>,
    expected_ext: Option<Seq<char>>,
)
    requires
        forall|x: Seq<char>| a.contains(x) <==> b.contains(x),
    ensures
        spec_pick_output(a, expected_ext) == spec_pick_output(b, expected_ext),
{
    lemma_least_fitting_same_names(a, b, None);
    if let Some(e) = expected_ext {
        lemma_least_fitting_same_names(a, b, Some(ext_suffix(e)));
    }
}

/// Sequences holding the same names have the same least fitting name.
proof fn lemma_least_fitting_same_names(a: Seq<Seq<char>>, b: Seq<Seq<char>>, suffix: Option<Seq<char>>)
    requires
        forall|x: Seq<char>| a.contains(x) <==> b.contains(x),
    ensures
        least_fitting_name(a, suffix) == least_fitting_name(b, suffix),
{
    assert forall|x: Seq<char>| is_least_fitting(a, x, suffix) implies is_least_fitting(b, x, suffix) by {
        assert forall|j: int| 0 <= j < b.len() && fits_suffix(#[trigger] b[j], suffix) implies lex_le(x, b[j]) by {
            assert(b.contains(b[j]));
            let i = choose|i: int| 0 <= i < a.len() && a[i] == b[j];
        }
    }
    assert forall|x: Seq<char>| is_least_fitting(b, x, suffix) implies is_least_fitting(a, x, suffix) by {
        assert forall|j: int| 0 <= j < a.len() && fits_suffix(#[trigger] a[j], suffix) implies lex_le(x, a[j]) by {
            assert(a.contains(a[j]));
            let i = choose|i: int| 0 <= i < b.len() && b[i] == a[j];
        }
    }
    if any_fits(a, suffix) {
        let k = choose|k: int| 0 <= k < a.len() && fits_suffix(a[k], suffix);
        assert(a.contains(a[k]));
        let i = choose|i: int| 0 <= i < b.len() && b[i] == a[k];
        assert(any_fits(b, suffix));
        lemma_least_fitting_exists(a, suffix);
        let x = least_fitting_name(a, suffix)->0;
        lemma_least_fitting_name(b, x, suffix);
    } else {
        if any_fits(b, suffix) {
            let k = choose|k: int| 0 <= k < b.len() && fits_suffix(b[k], suffix);
            assert(b.contains(b[k]));
            let i = choose|i: int| 0 <= i < a.len() && a[i] == b[k];
            assert(fits_suffix(a[i], suffix));
        }
    }
}

/// Text that differs only in one middle part differs there: `x + d1 + y`
/// equals `x + d2 + y` only when `d1` equals `d2`.
proof fn lemma_middle_part(x: Seq<char>, d1: Seq<char>, d2: Seq<char>, y: Seq<char>)
    requires
        x + d1 + y == x + d2 + y,
    ensures
        d1 == d2,
{
    let r1 = x + d1 + y;
    let r2 = x + d2 + y;
    assert(r1.len() == r2.len());
    assert(r1.len() == x.len() + d1.len() + y.len());
    assert(r2.len() == x.len() + d2.len() + y.len());
    assert forall|i: int| 0 <= i < d1.len() implies d1[i] == d2[i] by {
        assert(r1[x.len() + i] == d1[i]);
        assert(r2[x.len() + i] == d2[i]);
    }
    assert(d1 =~= d2);
}

/// Different numbers give different numbered names.
pub proof fn lemma_numbered_name_injective(filename: Seq<char>, a: nat, b: nat)
    requires
        a != b,
    ensures
        spec_numbered_name(filename, a) != spec_numbered_name(filename, b),
{
    lemma_decimal_injective(a, b);
    match last_index_of(filename, '.') {
        Some(i) if i > 0 => {
            let x = filename.take(i) + " ("@;
            let y = ")."@ + filename.skip(i + 1);
            assert(spec_numbered_name(filename, a) =~= x + decimal(a) + y);
            assert(spec_numbered_name(filename, b) =~= x + decimal(b) + y);
            if spec_numbered_name(filename, a) == spec_numbered_name(filename, b) {
                lemma_middle_part(x, decimal(a), decimal(b), y);
            }
        },
        _ => {
            let x = filename + " ("@;
            let y = ")"@;
            assert(spec_numbered_name(filename, a) =~= x + decimal(a) + y);
            assert(spec_numbered_name(filename, b) =~= x + decimal(b) + y);
            if spec_numbered_name(filename, a) == spec_numbered_name(filename, b) {
                lemma_middle_part(x, decimal(a), decimal(b), y);
            }
        },
    }
}

} // verus!
