//! Data transfer objects for the HTTP boundary: the shapes clients send and
//! receive, and the response header that names a download.

use vstd::prelude::*;

use crate::domain::media::{spec_parse_quality, Quality};
use crate::text::opt_string_view;

verus! {

/// Body of `POST /api/download`.
#[derive(Debug)]
pub struct DownloadRequest {
    pub url: String,
    /// One of `best`, `1080`, `720`, `audio`, `mp3`, or a raw yt-dlp format.
    pub quality: Option<String>,
}

/// Query string of `GET /api/info`.
#[derive(Debug)]
pub struct InfoQuery {
    pub url: String,
}

/// Body of `GET /api/health`.
#[derive(Debug)]
pub struct HealthStatus {
    pub status: &'static str,
    pub yt_dlp_available: bool,
    pub ffmpeg_available: bool,
}

impl DownloadRequest {
    /// The quality this request asks for; `best` when it names none.
    pub fn requested_quality(&self) -> (res: Quality)
        ensures
            res@ == spec_parse_quality(opt_string_view(self.quality)),
    {
        match &self.quality {
            Some(q) => Quality::parse(Some(q.as_str())),
            None => Quality::parse(None),
        }
    }
}

impl HealthStatus {
    /// The health report for the given tool availability; the server itself
    /// is always `ok` when it answers.
    pub fn report(yt_dlp_available: bool, ffmpeg_available: bool) -> (res: Self)
        ensures
            res.status@ == "ok"@,
            res.yt_dlp_available == yt_dlp_available,
            res.ffmpeg_available == ffmpeg_available,
    {
        HealthStatus { status: "ok", yt_dlp_available, ffmpeg_available }
    }
}

/// The `Content-Disposition` header value that offers `filename` as an attachment.
pub open spec fn spec_content_disposition(filename: Seq<char>) -> Seq<char> {
    "attachment; filename=\""@ + filename + "\""@
}

/// The `Content-Disposition` header value that offers `filename` as an attachment.
pub fn content_disposition(filename: &str) -> (res: String)
    ensures
        res@ == spec_content_disposition(filename@),
{
    let mut res = String::from_str("attachment; filename=\"");
    res.append(filename);
    res.append("\"");
    res
}

} // verus!
