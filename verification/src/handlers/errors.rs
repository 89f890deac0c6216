//! Errors of a request and the page each one is answered with.

use vstd::prelude::*;

use crate::handlers::util::site_chrome;
use crate::templates::ErrorTemplate;

verus! {

/// Why a request failed.
#[derive(Debug)]
pub enum AppError {
    /// The request was malformed (an unsafe path or reference name).
    BadRequest,
    /// The repository, reference, commit or file does not exist.
    NotFound,
    /// Something else went wrong; the message is for the log.
    Internal(String),
}

/// The status code, heading and message of the page that answers an error.
pub open spec fn error_page_spec(e: AppError) -> (u16, Seq<char>, Seq<char>) {
    match e {
        AppError::BadRequest => (400, "Bad request"@, "The request was invalid or malformed."@),
        AppError::NotFound => (404, "Not found"@, "The page you requested does not exist."@),
        AppError::Internal(_) => (500, "Internal error"@, "An unexpected error occurred."@),
    }
}

/// The status code, heading and message of the page that answers an error
/// (see `error_page_spec`).
pub fn error_page(e: &AppError) -> (r: (u16, &'static str, &'static str))
    ensures
        (r.0, r.1@, r.2@) == error_page_spec(*e),
{
    match e {
        AppError::BadRequest => (400, "Bad request", "The request was invalid or malformed."),
        AppError::NotFound => (404, "Not found", "The page you requested does not exist."),
        AppError::Internal(_) => (500, "Internal error", "An unexpected error occurred."),
    }
}


/// The site title that error pages show, set once when the server starts.
pub struct SiteTitle {
    pub title: Option<String>,
}

impl SiteTitle {
    /// A title not yet set.
    pub fn new() -> (r: SiteTitle)
        ensures
            r.title is None,
    {
        SiteTitle { title: None }
    }
}

/// Sets the site title, unless it was set before: the first title stays.
pub fn set_site_title(cell: &mut SiteTitle, title: String)
    ensures
        old(cell).title is None ==> final(cell).title == Some(title),
        old(cell).title is Some ==> final(cell).title == old(cell).title,
{
    if cell.title.is_none() {
        cell.title = Some(title);
    }
}

/// The site title of error pages: the one set, or "uwgit" before one was.
pub fn site_title(cell: &SiteTitle) -> (r: String)
    ensures
        r@ == (match cell.title {
            Some(t) => t@,
            None => "uwgit"@,
        }),
{
    match &cell.title {
        Some(t) => t.clone(),
        None => crate::text::owned("uwgit"),
    }
}

/// The page that answers an error, with its status code: the heading and
/// message of the error under the site title, with no repository shown.
pub fn error_template(e: &AppError, title: &SiteTitle, css_version: &'static str, js_version: &'static str) -> (r: (u16, ErrorTemplate))
    ensures
        (r.0, r.1.heading@, r.1.message@) == error_page_spec(*e),
        r.1.chrome.site_title@ == (match title.title {
            Some(t) => t@,
            None => "uwgit"@,
        }),
        r.1.chrome.css_version == css_version,
        r.1.chrome.js_version == js_version,
        r.1.chrome.header_repo is None,
        r.1.chrome.header_branch is None,
        r.1.chrome.header_tag is None,
{
    let (status, heading, message) = error_page(e);
    let chrome = site_chrome(site_title(title), css_version, js_version);
    (status, ErrorTemplate { chrome, heading: crate::text::owned(heading), message: crate::text::owned(message) })
}

} // verus!
