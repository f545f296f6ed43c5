//! URL validation: only `http(s)` URLs on a known YouTube host are accepted.

use vstd::prelude::*;

use crate::error::{unit_result_view, AppError, AppErrorView};
use crate::text::{eq_ascii_case_insensitive, eq_ignore_ascii_case};

verus! {

/// Hosts we accept download requests for.
const ALLOWED_HOSTS: [&'static str; 5] = [
    "youtube.com",
    "www.youtube.com",
    "m.youtube.com",
    "youtu.be",
    "www.youtu.be",
];

/// The hosts we accept download requests for.
pub open spec fn allowed_hosts() -> Seq<Seq<char>> {
    seq!["youtube.com"@, "www.youtube.com"@, "m.youtube.com"@, "youtu.be"@, "www.youtu.be"@]
}

/// Whether `host` is one of [`allowed_hosts`], up to ASCII case.
pub open spec fn is_allowed_host(host: Seq<char>) -> bool {
    exists|i: int|
        0 <= i < allowed_hosts().len() && eq_ascii_case_insensitive(host, #[trigger] allowed_hosts()[i])
}

/// The parts of a parsed URL that validation reads.
pub struct UrlParts {
    /// The scheme, e.g. `https`.
    pub scheme: String,
    /// The host, if the URL has one.
    pub host: Option<String>,
}

/// The view of a parse outcome: scheme and host as character sequences.
pub open spec fn url_parts_view(parts: Option<UrlParts>) -> Option<(Seq<char>, Option<Seq<char>>)> {
    match parts {
        Some(p) => Some(
            (
                p.scheme@,
                match p.host {
                    Some(h) => Some(h@),
                    None => None,
                },
            ),
        ),
        None => None,
    }
}

/// The scheme and host that `url::Url::parse` gives for `raw` (`None` when it
/// rejects `raw`).
pub uninterp spec fn url_parse_parts(raw: Seq<char>) -> Option<(Seq<char>, Option<Seq<char>>)>;

/// The verdict on a URL with the given parse outcome.
pub open spec fn spec_check_url(parts: Option<(Seq<char>, Option<Seq<char>>)>) -> Result<
    (),
    AppErrorView,
> {
    match parts {
        None => Err(AppErrorView::InvalidRequest("Invalid URL format"@)),
        Some((scheme, host)) => if !(scheme == "http"@ || scheme == "https"@) {
            Err(AppErrorView::InvalidRequest("URL must use http or https"@))
        } else {
            match host {
                None => Err(AppErrorView::InvalidRequest("Missing host"@)),
                Some(h) => if is_allowed_host(h) {
                    Ok(())
                } else {
                    Err(AppErrorView::InvalidRequest("Only YouTube URLs are supported"@))
                },
            }
        },
    }
}

/// Parses `raw` with `url::Url::parse` and reads the scheme (`Url::scheme`)
/// and host (`Url::host_str`) of the result. The contract claims only that
/// the outcome is the one `url` computes for `raw`, named
/// [`url_parse_parts`]; what that is for a given string is not stated.
#[verifier::external_body]
fn parse_url_parts(raw: &str) -> (res: Option<UrlParts>)
    ensures
        url_parts_view(res) == url_parse_parts(raw@),
{
    url::Url::parse(raw).ok().map(
        |u| UrlParts { scheme: u.scheme().to_string(), host: u.host_str().map(|h| h.to_string()) },
    )
}

/// Validate that `raw_url` is an `http(s)` URL pointing at a known YouTube host.
///
/// Returns [`AppError::InvalidRequest`] with a human-readable reason otherwise.
pub fn validate_youtube_url(raw_url: &str) -> (res: Result<(), AppError>)
    ensures
        unit_result_view(res) == spec_check_url(url_parse_parts(raw_url@)),
{
    let parts = parse_url_parts(raw_url);
    check_url_parts(parts)
}

/// The verdict on a URL, given what parsing it produced.
pub fn check_url_parts(parts: Option<UrlParts>) -> (res: Result<(), AppError>)
    ensures
        unit_result_view(res) == spec_check_url(url_parts_view(parts)),
{
    let parsed = match parts {
        Some(p) => p,
        None => return Err(AppError::InvalidRequest(String::from_str("Invalid URL format"))),
    };
    let scheme = parsed.scheme.as_str();
    if !(crate::text::str_eq(scheme, "http") || crate::text::str_eq(scheme, "https")) {
        return Err(AppError::InvalidRequest(String::from_str("URL must use http or https")));
    }
    let host = match &parsed.host {
        Some(h) => h.as_str(),
        None => return Err(AppError::InvalidRequest(String::from_str("Missing host"))),
    };
    if is_allowed(host) {
        Ok(())
    } else {
        Err(AppError::InvalidRequest(String::from_str("Only YouTube URLs are supported")))
    }
}

/// Whether `host` is an allowed host, ignoring ASCII case.
fn is_allowed(host: &str) -> (res: bool)
    ensures
        res == is_allowed_host(host@),
{
    let hosts = ALLOWED_HOSTS;
    assert(hosts@.map_values(|s: &str| s@) =~= allowed_hosts());
    let mut i: usize = 0;
    while i < 5
        invariant
            0 <= i <= 5,
            hosts@.len() == 5,
            hosts@.map_values(|s: &str| s@) == allowed_hosts(),
            forall|j: int| 0 <= j < i ==> !eq_ascii_case_insensitive(host@, #[trigger] allowed_hosts()[j]),
        decreases 5 - i,
    {
        let candidate: &str = hosts[i];
        assert(allowed_hosts()[i as int] == candidate@);
        if eq_ignore_ascii_case(host, candidate) {
            return true;
        }
        i = i + 1;
    }
    false
}

/// Only `http(s)` URLs on one of the allowed hosts are accepted.
pub proof fn lemma_accepted_urls_are_youtube(parts: Option<(Seq<char>, Option<Seq<char>>)>)
    ensures
        spec_check_url(parts) is Ok ==> (parts matches Some((scheme, Some(host))) && (scheme
            == "http"@ || scheme == "https"@) && is_allowed_host(host)),
        (parts matches Some((scheme, Some(host))) && (scheme == "http"@ || scheme == "https"@)
            && is_allowed_host(host)) ==> spec_check_url(parts) is Ok,
        spec_check_url(parts) matches Err(e) ==> e is InvalidRequest,
        is_allowed_host_named(parts) <==> (parts matches Some((_, Some(host))) && (
        eq_ascii_case_insensitive(host, "youtube.com"@) || eq_ascii_case_insensitive(
            host,
            "www.youtube.com"@,
        ) || eq_ascii_case_insensitive(host, "m.youtube.com"@) || eq_ascii_case_insensitive(
            host,
            "youtu.be"@,
        ) || eq_ascii_case_insensitive(host, "www.youtu.be"@))),
{
    if let Some((_, Some(host))) = parts {
        if eq_ascii_case_insensitive(host, "youtube.com"@) {
            assert(allowed_hosts()[0] == "youtube.com"@);
        }
        if eq_ascii_case_insensitive(host, "www.youtube.com"@) {
            assert(allowed_hosts()[1] == "www.youtube.com"@);
        }
        if eq_ascii_case_insensitive(host, "m.youtube.com"@) {
            assert(allowed_hosts()[2] == "m.youtube.com"@);
        }
        if eq_ascii_case_insensitive(host, "youtu.be"@) {
            assert(allowed_hosts()[3] == "youtu.be"@);
        }
        if eq_ascii_case_insensitive(host, "www.youtu.be"@) {
            assert(allowed_hosts()[4] == "www.youtu.be"@);
        }
    }
}

/// Whether a parse outcome has a host that [`is_allowed_host`] accepts.
pub open spec fn is_allowed_host_named(parts: Option<(Seq<char>, Option<Seq<char>>)>) -> bool {
    parts matches Some((_, Some(host))) && is_allowed_host(host)
}

} // verus!
