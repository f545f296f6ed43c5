//! Application-wide error type.
//!
//! A single [`AppError`] flows through every layer, tagged with the HTTP
//! status it maps to; the server renders it as `{ "error": "<message>" }`.

use vstd::prelude::*;

verus! {

/// Every failure mode the API can surface.
#[derive(Debug)]
pub enum AppError {
    /// The client sent something invalid (bad URL, unsupported host, ...). Maps to 400.
    InvalidRequest(String),
    /// yt-dlp ran but reported an error (e.g. unavailable video). Maps to 400.
    YtDlp(String),
    /// An external tool (yt-dlp / ffmpeg) could not be executed. Maps to 500.
    ToolUnavailable(String),
    /// The download finished but the output file could not be located. Maps to 500.
    FileNotFound,
    /// Any other internal failure (filesystem, parsing, ...). Maps to 500.
    Internal(String),
}

/// The mathematical value of an [`AppError`].
pub enum AppErrorView {
    InvalidRequest(Seq<char>),
    YtDlp(Seq<char>),
    ToolUnavailable(Seq<char>),
    FileNotFound,
    Internal(Seq<char>),
}

impl View for AppError {
    type V = AppErrorView;

    open spec fn view(&self) -> AppErrorView {
        match self {
            AppError::InvalidRequest(m) => AppErrorView::InvalidRequest(m@),
            AppError::YtDlp(m) => AppErrorView::YtDlp(m@),
            AppError::ToolUnavailable(m) => AppErrorView::ToolUnavailable(m@),
            AppError::FileNotFound => AppErrorView::FileNotFound,
            AppError::Internal(m) => AppErrorView::Internal(m@),
        }
    }
}

/// The HTTP status code an error is answered with.
pub open spec fn spec_status_code(e: AppErrorView) -> u16 {
    match e {
        AppErrorView::InvalidRequest(_) | AppErrorView::YtDlp(_) => 400,
        _ => 500,
    }
}

/// The human-readable text of an error.
pub open spec fn spec_message(e: AppErrorView) -> Seq<char> {
    match e {
        AppErrorView::InvalidRequest(m) => m,
        AppErrorView::YtDlp(m) => "yt-dlp error: "@ + m,
        AppErrorView::ToolUnavailable(m) => m,
        AppErrorView::FileNotFound => "download completed but file not found"@,
        AppErrorView::Internal(m) => m,
    }
}

/// The view of a result that carries no value on success.
pub open spec fn unit_result_view(r: Result<(), AppError>) -> Result<(), AppErrorView> {
    match r {
        Ok(()) => Ok(()),
        Err(e) => Err(e@),
    }
}

impl AppError {
    /// The HTTP status code this error is answered with: 400 for a bad request
    /// or a yt-dlp failure, 500 otherwise.
    pub fn status_code(&self) -> (res: u16)
        ensures
            res == spec_status_code(self@),
    {
        match self {
            AppError::InvalidRequest(_) | AppError::YtDlp(_) => 400,
            AppError::ToolUnavailable(_) | AppError::FileNotFound | AppError::Internal(_) => 500,
        }
    }

    /// The error's message, as it appears in the JSON body and on the terminal.
    pub fn message(&self) -> (res: String)
        ensures
            res@ == spec_message(self@),
    {
        match self {
            AppError::InvalidRequest(m) => m.clone(),
            AppError::YtDlp(m) => {
                let mut res = String::from_str("yt-dlp error: ");
                res.append(m.as_str());
                res
            },
            AppError::ToolUnavailable(m) => m.clone(),
            AppError::FileNotFound => String::from_str("download completed but file not found"),
            AppError::Internal(m) => m.clone(),
        }
    }
}

/// Client mistakes and yt-dlp's own refusals are answered with 400 Bad
/// Request, everything else with 500; a yt-dlp error says it came from
/// yt-dlp.
pub proof fn lemma_status_codes(e: AppErrorView)
    ensures
        spec_status_code(e) == 400 <==> (e is InvalidRequest || e is YtDlp),
        spec_status_code(e) == 500 <==> !(e is InvalidRequest || e is YtDlp),
        e matches AppErrorView::YtDlp(m) ==> spec_message(e) == "yt-dlp error: "@ + m,
        e matches AppErrorView::InvalidRequest(m) ==> spec_message(e) == m,
{
}

} // verus!
