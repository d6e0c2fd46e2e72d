//! The errors that can occur while talking to the testing machines.

use vstd::prelude::*;
use vstd::string::*;
use crate::text::{decimal, decimal_string};

verus! {

#[verifier::external_type_specification]
#[verifier::external_body]
pub struct ExTransportError(reqwest::Error);

/// All error types that can occur within LabLink.
#[derive(Debug)]
pub enum LinkError {
    /// Upstream server could not be reached (network / timeout).
    UpstreamUnreachable(String),
    /// Upstream returned an unexpected HTTP status.
    UpstreamStatus { status: u16, body: String },
    /// The response from the upstream could not be parsed.
    ParseError(String),
    /// A generic internal error, by its message.
    Internal(String),
}

/// A `LinkError` with its texts seen as character sequences.
pub enum LinkErrorView {
    UpstreamUnreachable(Seq<char>),
    UpstreamStatus { status: u16, body: Seq<char> },
    ParseError(Seq<char>),
    Internal(Seq<char>),
}

impl View for LinkError {
    type V = LinkErrorView;

    open spec fn view(&self) -> LinkErrorView {
        match self {
            LinkError::UpstreamUnreachable(s) => LinkErrorView::UpstreamUnreachable(s@),
            LinkError::UpstreamStatus { status, body } => LinkErrorView::UpstreamStatus {
                status: *status,
                body: body@,
            },
            LinkError::ParseError(s) => LinkErrorView::ParseError(s@),
            LinkError::Internal(s) => LinkErrorView::Internal(s@),
        }
    }
}

/// The text shown for an error (what its `Display` says).
pub open spec fn error_text(e: LinkErrorView) -> Seq<char> {
    match e {
        LinkErrorView::UpstreamUnreachable(s) => "upstream unreachable: "@ + s,
        LinkErrorView::UpstreamStatus { status, body } => "upstream error "@ + decimal(
            status as nat,
        ) + ": "@ + body,
        LinkErrorView::ParseError(s) => "failed to parse upstream response: "@ + s,
        LinkErrorView::Internal(s) => "internal error: "@ + s,
    }
}

/// The HTTP status with which an error is answered.
pub open spec fn error_http_status(e: LinkErrorView) -> u16 {
    match e {
        LinkErrorView::UpstreamUnreachable(_) => 502,
        LinkErrorView::UpstreamStatus { .. } => 502,
        LinkErrorView::ParseError(_) => 500,
        LinkErrorView::Internal(_) => 500,
    }
}

/// The machine-readable code with which an error is answered.
pub open spec fn error_code(e: LinkErrorView) -> Seq<char> {
    match e {
        LinkErrorView::UpstreamUnreachable(_) => "upstream_unreachable"@,
        LinkErrorView::UpstreamStatus { .. } => "upstream_error"@,
        LinkErrorView::ParseError(_) => "parse_error"@,
        LinkErrorView::Internal(_) => "internal_error"@,
    }
}

/// The error made from a transport failure: connection failures and
/// timeouts make the upstream unreachable; a failure that carries an HTTP
/// status is an upstream status error; anything else is internal.
pub open spec fn transport_failure(
    connect_or_timeout: bool,
    status: Option<u16>,
    text: Seq<char>,
) -> LinkErrorView {
    if connect_or_timeout {
        LinkErrorView::UpstreamUnreachable(text)
    } else if status is Some {
        LinkErrorView::UpstreamStatus { status: status->0, body: text }
    } else {
        LinkErrorView::Internal(text)
    }
}

/// Whether a `reqwest` failure reports that it comes from connecting.
pub uninterp spec fn connect_of(err: reqwest::Error) -> bool;

/// Whether a `reqwest` failure reports that it comes from a timeout.
pub uninterp spec fn timeout_of(err: reqwest::Error) -> bool;

/// The HTTP status number that a `reqwest` failure carries, if any.
pub uninterp spec fn status_of(err: reqwest::Error) -> Option<u16>;

/// The text that the `Display` of a `reqwest` failure writes.
pub uninterp spec fn text_of(err: reqwest::Error) -> Seq<char>;

/// Calls `reqwest::Error::is_connect`. The answer depends on the error
/// value alone: the method walks the error's chain of sources and looks for
/// a connect failure of the HTTP client. Its result is named `connect_of`.
#[verifier::external_body]
fn transport_is_connect(err: &reqwest::Error) -> (r: bool)
    ensures
        r == connect_of(*err),
{
    err.is_connect()
}

/// Calls `reqwest::Error::is_timeout`. The answer depends on the error
/// value alone: the method walks the error's chain of sources and looks for
/// a timeout. Its result is named `timeout_of`.
#[verifier::external_body]
fn transport_is_timeout(err: &reqwest::Error) -> (r: bool)
    ensures
        r == timeout_of(*err),
{
    err.is_timeout()
}

/// Calls `reqwest::Error::status`, converted to the status number. The
/// method reads the error's kind, which carries a status only when the
/// error was made from a response. Its result is named `status_of`.
#[verifier::external_body]
fn transport_status(err: &reqwest::Error) -> (r: Option<u16>)
    ensures
        r == status_of(*err),
{
    err.status().map(|s| s.as_u16())
}

/// Calls the `Display` of `reqwest::Error` through `to_string`. The text is
/// written from the error's kind, URL and source alone. It is named
/// `text_of`.
#[verifier::external_body]
fn transport_text(err: &reqwest::Error) -> (r: String)
    ensures
        r@ == text_of(*err),
{
    err.to_string()
}

impl LinkError {
    /// The error made from a transport failure, given what the failure says
    /// of itself.
    pub fn from_transport_failure(connect_or_timeout: bool, status: Option<u16>, text: String) -> (r:
        LinkError)
        ensures
            r@ == transport_failure(connect_or_timeout, status, text@),
    {
        if connect_or_timeout {
            LinkError::UpstreamUnreachable(text)
        } else {
            match status {
                Some(code) => LinkError::UpstreamStatus { status: code, body: text },
                None => LinkError::Internal(text),
            }
        }
    }

    /// The error made from a `reqwest` failure, classified by what the
    /// failure reports of itself: connection failures and timeouts make the
    /// upstream unreachable, a failure with a status is an upstream status
    /// error, and anything else is internal.
    pub fn from_reqwest(err: reqwest::Error) -> (r: LinkError)
        ensures
            r@ == transport_failure(connect_of(err) || timeout_of(err), status_of(err), text_of(err)),
    {
        let connect = transport_is_connect(&err);
        let timeout = transport_is_timeout(&err);
        let status = transport_status(&err);
        let text = transport_text(&err);
        LinkError::from_transport_failure(connect || timeout, status, text)
    }

    /// The text of the error, as its `Display` shows it.
    pub fn message(&self) -> (r: String)
        ensures
            r@ == error_text(self@),
    {
        match self {
            LinkError::UpstreamUnreachable(s) => {
                let mut r = String::from_str("upstream unreachable: ");
                r.append(s.as_str());
                r
            },
            LinkError::UpstreamStatus { status, body } => {
                let mut r = String::from_str("upstream error ");
                let code = decimal_string(*status as usize);
                r.append(code.as_str());
                r.append(": ");
                r.append(body.as_str());
                r
            },
            LinkError::ParseError(s) => {
                let mut r = String::from_str("failed to parse upstream response: ");
                r.append(s.as_str());
                r
            },
            LinkError::Internal(s) => {
                let mut r = String::from_str("internal error: ");
                r.append(s.as_str());
                r
            },
        }
    }

    /// How the error is answered: the HTTP status, the error code and the
    /// message.
    pub fn response_parts(&self) -> (r: (u16, &'static str, String))
        ensures
            r.0 == error_http_status(self@),
            r.1@ == error_code(self@),
            r.2@ == error_text(self@),
    {
        let message = self.message();
        match self {
            LinkError::UpstreamUnreachable(_) => (502, "upstream_unreachable", message),
            LinkError::UpstreamStatus { .. } => (502, "upstream_error", message),
            LinkError::ParseError(_) => (500, "parse_error", message),
            LinkError::Internal(_) => (500, "internal_error", message),
        }
    }
}

/// A result whose error is a `LinkError`.
pub type LinkResult<T> = Result<T, LinkError>;

} // verus!
